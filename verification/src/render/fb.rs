//! Pixel formats of a hardware framebuffer, and the conversions and clears
//! that write into its backing bytes.

use vstd::prelude::*;
use vstd::arithmetic::div_mod::{lemma_fundamental_div_mod_converse_div, lemma_fundamental_div_mod_converse_mod};
use crate::render::fit::{centre_offset, fits_target, sample, scaled_size, ScaleFit};
use crate::render::geometry::Rect;
use crate::render::frame::{RenderFrame, lemma_offset_bounds, pixel_of};
use crate::render::palette::Rgb;

verus! {

/// Layout of one framebuffer pixel.
#[derive(Clone, Copy, Debug, PartialEq, Eq, Structural)]
pub enum PixelFormat {
    /// 16 bits: five of red, six of green, five of blue; low byte first.
    Rgb565,
    /// 32 bits: blue, green, red, then an ignored byte, in that order in memory.
    Xrgb8888,
}

/// Bytes per pixel of a format.
pub open spec fn bpp(f: PixelFormat) -> int {
    match f {
        PixelFormat::Rgb565 => 2,
        PixelFormat::Xrgb8888 => 4,
    }
}

impl PixelFormat {
    /// Bytes per pixel.
    pub fn bytes_per_pixel(self) -> (n: usize)
        ensures
            n == bpp(self),
    {
        match self {
            PixelFormat::Rgb565 => 2,
            PixelFormat::Xrgb8888 => 4,
        }
    }
}

/// The layout a framebuffer reports, by bits per pixel and the bit offsets
/// of red, green and blue: 16 bits with red at 11, green at 5 and blue at 0
/// is RGB565; 32 bits with green at 8 and red and blue at 16 and 0, either
/// way round, is XRGB8888; anything else is not supported.
pub open spec fn format_of(bits: u32, red: u32, green: u32, blue: u32) -> Option<PixelFormat> {
    if bits == 16 && red == 11 && green == 5 && blue == 0 {
        Some(PixelFormat::Rgb565)
    } else if bits == 32 && green == 8 && ((red == 16 && blue == 0) || (red == 0 && blue == 16)) {
        Some(PixelFormat::Xrgb8888)
    } else {
        None
    }
}

/// The layout a framebuffer reports (see `format_of`).
pub fn pixel_format_of(bits: u32, red: u32, green: u32, blue: u32) -> (r: Option<PixelFormat>)
    ensures
        r == format_of(bits, red, green, blue),
{
    if bits == 16 && red == 11 && green == 5 && blue == 0 {
        Some(PixelFormat::Rgb565)
    } else if bits == 32 && green == 8 && ((red == 16 && blue == 0) || (red == 0 && blue == 16)) {
        Some(PixelFormat::Xrgb8888)
    } else {
        None
    }
}

/// The 16-bit RGB565 value of a colour: the top five bits of red, six of
/// green and five of blue, red highest.
pub open spec fn rgb565(r: u8, g: u8, b: u8) -> int {
    (r as int / 8) * 2048 + (g as int / 4) * 32 + (b as int / 8)
}

/// The bytes of a colour in a format, in memory order.
pub open spec fn packed(f: PixelFormat, r: u8, g: u8, b: u8) -> Seq<u8> {
    match f {
        PixelFormat::Rgb565 => seq![(rgb565(r, g, b) % 256) as u8, (rgb565(r, g, b) / 256) as u8],
        PixelFormat::Xrgb8888 => seq![b, g, r, 0xffu8],
    }
}

/// Packs a colour as RGB565, low byte first.
pub fn pack_rgb565(r: u8, g: u8, b: u8) -> (p: [u8; 2])
    ensures
        p@ == packed(PixelFormat::Rgb565, r, g, b),
{
    let v: u16 = (((r as u16) & 0xf8) << 8u16) | (((g as u16) & 0xfc) << 3u16) | ((b as u16) >> 3u16);
    assert(v == (r / 8) * 2048 + (g / 4) * 32 + b / 8) by (bit_vector)
        requires
            v == (((r as u16) & 0xf8) << 8u16) | (((g as u16) & 0xfc) << 3u16) | ((b as u16) >> 3u16),
    ;
    let lo: u8 = (v & 0xff) as u8;
    let hi: u8 = (v >> 8u16) as u8;
    assert(lo == v % 256 && hi == v / 256) by (bit_vector)
        requires
            lo == (v & 0xff) as u8,
            hi == (v >> 8u16) as u8,
    ;
    let p = [lo, hi];
    assert(p@ =~= packed(PixelFormat::Rgb565, r, g, b));
    p
}

/// Packs a colour as XRGB8888: blue, green, red, then `0xff`.
pub fn pack_xrgb8888(r: u8, g: u8, b: u8) -> (p: [u8; 4])
    ensures
        p@ == packed(PixelFormat::Xrgb8888, r, g, b),
{
    let p = [b, g, r, 0xff];
    assert(p@ =~= packed(PixelFormat::Xrgb8888, r, g, b));
    p
}

/// `dst` with the bytes of one packed pixel written at `off`.
pub open spec fn written(dst: Seq<u8>, off: int, bytes: Seq<u8>) -> Seq<u8> {
    Seq::new(
        dst.len(),
        |k: int|
            if off <= k < off + bytes.len() {
                bytes[k - off]
            } else {
                dst[k]
            },
    )
}

/// Writes one pixel in the given format at byte offset `off`.
fn write_pixel(dst: &mut [u8], off: usize, format: PixelFormat, r: u8, g: u8, b: u8)
    requires
        off + bpp(format) <= old(dst)@.len(),
    ensures
        final(dst)@ == written(old(dst)@, off as int, packed(format, r, g, b)),
{
    match format {
        PixelFormat::Rgb565 => {
            let p = pack_rgb565(r, g, b);
            dst[off] = p[0];
            dst[off + 1] = p[1];
        },
        PixelFormat::Xrgb8888 => {
            let p = pack_xrgb8888(r, g, b);
            dst[off] = p[0];
            dst[off + 1] = p[1];
            dst[off + 2] = p[2];
            dst[off + 3] = p[3];
        },
    }
    assert(dst@ =~= written(old(dst)@, off as int, packed(format, r, g, b)));
}

/// Byte `k` of a buffer with rows `stride` bytes apart belongs to one of the
/// first `w` pixels of one of the first `h` rows.
pub open spec fn in_target(k: int, stride: int, n: int, w: int, h: int) -> bool {
    0 < stride && 0 <= k && k / stride < h && k % stride < w * n
}

/// Byte `j` of a black pixel in a format.
pub open spec fn black_byte(f: PixelFormat, j: int) -> u8 {
    match f {
        PixelFormat::Rgb565 => 0u8,
        PixelFormat::Xrgb8888 => if j == 3 {
            0xffu8
        } else {
            0u8
        },
    }
}

/// Where the byte at `(row, col)` of a strided buffer lies.
proof fn lemma_row_col(k: int, stride: int, row: int, col: int)
    requires
        stride > 0,
        0 <= col < stride,
        k == row * stride + col,
    ensures
        k / stride == row,
        k % stride == col,
{
    lemma_fundamental_div_mod_converse_div(k, stride, row, col);
    lemma_fundamental_div_mod_converse_mod(k, stride, row, col);
}

/// Paints the first `target_w` pixels of the first `target_h` rows black;
/// every other byte keeps its value.
pub fn clear_fb(dst: &mut [u8], stride: usize, format: PixelFormat, target_w: i32, target_h: i32)
    requires
        0 <= target_w,
        0 <= target_h,
        target_w * bpp(format) <= stride,
        target_h * stride <= old(dst)@.len(),
    ensures
        final(dst)@.len() == old(dst)@.len(),
        forall|k: int|
            0 <= k < old(dst)@.len() ==> #[trigger] final(dst)@[k] == if in_target(
                k,
                stride as int,
                bpp(format),
                target_w as int,
                target_h as int,
            ) {
                black_byte(format, (k % stride as int) % bpp(format))
            } else {
                old(dst)@[k]
            },
{
    let step = format.bytes_per_pixel();
    let ghost before = dst@;
    let ghost n = step as int;
    let ghost sw = stride as int;
    let total = dst.len();
    let th = target_h as usize;
    let tw = target_w as usize;
    if tw == 0 || th == 0 {
        proof {
            assert forall|k: int| 0 <= k < before.len() implies !in_target(k, sw, n, tw as int, th as int) by {
                if stride > 0 {
                    assert(k / sw >= 0 && k % sw >= 0) by (nonlinear_arith)
                        requires
                            0 <= k,
                            0 < sw,
                    ;
                }
            }
        }
        return;
    }
    let mut y: usize = 0;
    while y < th
        invariant
            dst@.len() == before.len(),
            total == before.len(),
            n == step,
            n == 2 || n == 4,
            n == bpp(format),
            sw == stride,
            0 < tw,
            0 < th,
            tw * n <= sw,
            th * sw <= before.len(),
            y <= th,
            forall|k: int|
                0 <= k < before.len() ==> #[trigger] dst@[k] == if in_target(k, sw, n, tw as int, y as int) {
                    black_byte(format, (k % sw) % n)
                } else {
                    before[k]
                },
        decreases th - y,
    {
        assert(y * sw + sw <= th * sw) by (nonlinear_arith)
            requires
                y < th,
                0 <= sw,
        ;
        let base = y * stride;
        let mut x: usize = 0;
        while x < tw
            invariant
                dst@.len() == before.len(),
                total == before.len(),
                n == step,
                n == 2 || n == 4,
                n == bpp(format),
                sw == stride,
                0 < tw,
                tw * n <= sw,
                y < th,
                th * sw <= before.len(),
                base == y * sw,
                base + sw <= th * sw,
                x <= tw,
                forall|k: int|
                    0 <= k < before.len() ==> #[trigger] dst@[k] == if in_target(k, sw, n, tw as int, y as int)
                        || (base <= k < base + x * n) {
                        black_byte(format, (k % sw) % n)
                    } else {
                        before[k]
                    },
            decreases tw - x,
        {
            assert(x * n + n <= tw * n) by (nonlinear_arith)
                requires
                    x < tw,
                    0 <= n,
            ;
            let off = base + x * step;
            let ghost prev = dst@;
            match format {
                PixelFormat::Rgb565 => {
                    dst[off] = 0;
                    dst[off + 1] = 0;
                },
                PixelFormat::Xrgb8888 => {
                    dst[off] = 0;
                    dst[off + 1] = 0;
                    dst[off + 2] = 0;
                    dst[off + 3] = 0xff;
                },
            }
            proof {
                assert forall|k: int| 0 <= k < before.len() implies #[trigger] dst@[k] == if in_target(
                    k,
                    sw,
                    n,
                    tw as int,
                    y as int,
                ) || (base <= k < base + (x + 1) * n) {
                    black_byte(format, (k % sw) % n)
                } else {
                    before[k]
                } by {
                    if base <= k < base + sw {
                        lemma_row_col(k, sw, y as int, k - base);
                        assert(!in_target(k, sw, n, tw as int, y as int));
                        if off <= k < off + n {
                            let j = k - off;
                            assert(k - base == x * n + j);
                            lemma_row_col(k - base, n, x as int, j);
                        }
                    } else if k < base {
                        assert(dst@[k] == prev[k]);
                    } else {
                        assert(dst@[k] == prev[k]);
                    }
                }
            }
            x = x + 1;
        }
        proof {
            assert forall|k: int| 0 <= k < before.len() implies #[trigger] dst@[k] == if in_target(
                k,
                sw,
                n,
                tw as int,
                (y + 1) as int,
            ) {
                black_byte(format, (k % sw) % n)
            } else {
                before[k]
            } by {
                if base <= k < base + sw {
                    lemma_row_col(k, sw, y as int, k - base);
                } else if k >= base + sw {
                    assert(k / sw >= y + 1) by {
                        assert((y + 1) * sw == y * sw + sw) by (nonlinear_arith);
                        lemma_row_col(base + sw, sw, (y + 1) as int, 0);
                        vstd::arithmetic::div_mod::lemma_div_is_ordered(base + sw, k, sw);
                    }
                } else {
                    assert(k / sw < y) by {
                        vstd::arithmetic::div_mod::lemma_div_is_ordered(k, base - 1, sw);
                        if y > 0 {
                            assert((y - 1) * sw + sw - 1 == y * sw - 1) by (nonlinear_arith);
                            lemma_row_col(base - 1, sw, (y - 1) as int, sw - 1);
                        }
                    }
                }
            }
        }
        y = y + 1;
    }
}

} // verus!

verus! {

/// Byte `k` of a buffer with rows `stride` bytes apart lies in the window of
/// `w` by `h` pixels of `n` bytes whose top left pixel is `(x0, y0)`.
pub open spec fn in_window(k: int, stride: int, n: int, x0: int, y0: int, w: int, h: int) -> bool {
    &&& 0 < stride
    &&& 0 <= k
    &&& y0 <= k / stride < y0 + h
    &&& x0 * n <= k % stride < (x0 + w) * n
}

/// The value a scaled blit writes at byte `k` of the window: byte `j` of the
/// packed source pixel that output pixel `(dx, dy)` samples.
pub open spec fn blit_byte(src: RenderFrame, fit: ScaleFit, stride: int, f: PixelFormat, k: int) -> u8 {
    let lb = fit.letterbox;
    let n = bpp(f);
    let dy = k / stride - lb.dst_y;
    let col = k % stride - lb.dst_x * n;
    let dx = col / n;
    let j = col % n;
    let p = src.pixel(fit.col_src@[dx] as int, fit.row_src@[dy] as int);
    packed(f, p.0, p.1, p.2)[j]
}

/// A fit whose tables sample inside `src` and whose window fits `dst`.
pub open spec fn fit_ok(src: RenderFrame, fit: ScaleFit, stride: int, f: PixelFormat, len: int) -> bool {
    let lb = fit.letterbox;
    &&& src.wf()
    &&& 0 <= lb.dst_x && 0 <= lb.dst_y && 0 <= lb.visible_w && 0 <= lb.visible_h
    &&& lb.visible_w <= fit.col_src@.len()
    &&& lb.visible_h <= fit.row_src@.len()
    &&& forall|d: int| 0 <= d < lb.visible_w ==> (#[trigger] fit.col_src@[d]) < src.w()
    &&& forall|d: int| 0 <= d < lb.visible_h ==> (#[trigger] fit.row_src@[d]) < src.h()
    &&& (lb.dst_x + lb.visible_w) * bpp(f) <= stride
    &&& (lb.dst_y + lb.visible_h) * stride <= len
}

/// Reads pixel `(x, y)` of a frame straight from its bytes.
fn read_pixel(bytes: &[u8], sw: usize, sh: usize, x: usize, y: usize) -> (c: Rgb)
    requires
        bytes@.len() == sw * sh * 3,
        x < sw,
        y < sh,
    ensures
        c == pixel_of(bytes@, sw as int, x as int, y as int),
{
    let len = bytes.len();
    proof {
        lemma_offset_bounds(sw as int, sh as int, x as int, y as int);
        assert(0 <= y * sw) by (nonlinear_arith)
            requires
                0 <= y,
                0 <= sw,
        ;
    }
    let si = (y * sw + x) * 3;
    assert(si + 3 <= len);
    Rgb(bytes[si], bytes[si + 1], bytes[si + 2])
}

/// Byte offset `col` of a row lies in pixel `col / n`: the pixel's bounds in
/// bytes, and the shift of that index by a whole number of pixels.
proof fn lemma_pixel_of_col(col: int, n: int, a: int, b: int)
    requires
        0 <= col,
        0 < n,
    ensures
        a * n <= col <==> a <= col / n,
        col < b * n <==> col / n < b,
        (col - a * n) / n == col / n - a,
        (col - a * n) % n == col % n,
        col == n * (col / n) + col % n,
        0 <= col % n < n,
{
    vstd::arithmetic::div_mod::lemma_fundamental_div_mod(col, n);
    vstd::arithmetic::div_mod::lemma_mod_bound(col, n);
    let q = col / n;
    let r = col % n;
    assert(a * n <= col <==> a <= q) by (nonlinear_arith)
        requires
            col == n * q + r,
            0 <= r < n,
            0 < n,
    ;
    assert(col < b * n <==> q < b) by (nonlinear_arith)
        requires
            col == n * q + r,
            0 <= r < n,
            0 < n,
    ;
    assert(col - a * n == (q - a) * n + r) by (nonlinear_arith)
        requires
            col == n * q + r,
    ;
    lemma_fundamental_div_mod_converse_div(col - a * n, n, q - a, r);
    lemma_fundamental_div_mod_converse_mod(col - a * n, n, q - a, r);
}

/// One more pixel written in the current row of a window: its bytes join the
/// written part, every other byte keeps its value.
proof fn lemma_blit_step(
    src: RenderFrame,
    fit: ScaleFit,
    sti: int,
    format: PixelFormat,
    before: Seq<u8>,
    prev: Seq<u8>,
    now: Seq<u8>,
    wx: int,
    wy: int,
    ww: int,
    rows: int,
    cd: int,
    row: int,
    c: Rgb,
)
    requires
        fit.letterbox.dst_x <= wx,
        fit.letterbox.dst_y <= wy,
        0 <= fit.letterbox.dst_x,
        0 <= rows,
        0 <= cd < ww,
        (wx + ww) * bpp(format) <= sti,
        row == (wy + rows) * sti,
        row + sti <= before.len(),
        prev.len() == before.len(),
        now == written(prev, row + (wx + cd) * bpp(format), packed(format, c.0, c.1, c.2)),
        c == src.pixel(
            fit.col_src@[wx + cd - fit.letterbox.dst_x] as int,
            fit.row_src@[wy + rows - fit.letterbox.dst_y] as int,
        ),
        forall|k: int|
            0 <= k < before.len() ==> #[trigger] prev[k] == if in_window(k, sti, bpp(format), wx, wy, ww, rows)
                || (row + wx * bpp(format) <= k < row + (wx + cd) * bpp(format)) {
                blit_byte(src, fit, sti, format, k)
            } else {
                before[k]
            },
    ensures
        forall|k: int|
            0 <= k < before.len() ==> #[trigger] now[k] == if in_window(k, sti, bpp(format), wx, wy, ww, rows)
                || (row + wx * bpp(format) <= k < row + (wx + cd + 1) * bpp(format)) {
                blit_byte(src, fit, sti, format, k)
            } else {
                before[k]
            },
{
    let n = bpp(format);
    let x0 = fit.letterbox.dst_x as int;
    let off = row + (wx + cd) * n;
    assert((wx + cd + 1) * n == (wx + cd) * n + n) by (nonlinear_arith);
    assert((wx + cd) * n + n <= (wx + ww) * n) by (nonlinear_arith)
        requires
            cd < ww,
            0 <= n,
    ;
    assert(0 <= wx * n <= (wx + cd) * n) by (nonlinear_arith)
        requires
            0 <= wx,
            0 <= cd,
            0 <= n,
    ;
    assert forall|k: int| 0 <= k < before.len() implies #[trigger] now[k] == if in_window(k, sti, n, wx, wy, ww, rows)
        || (row + wx * n <= k < row + (wx + cd + 1) * n) {
        blit_byte(src, fit, sti, format, k)
    } else {
        before[k]
    } by {
        if row <= k < row + sti {
            lemma_row_col(k, sti, wy + rows, k - row);
            if off <= k < off + n {
                let col = k - row;
                lemma_pixel_of_col(col, n, x0, 0);
                lemma_pixel_of_col(col, n, wx + cd, wx + cd + 1);
                assert(col / n == wx + cd);
            }
        }
    }
}

/// Writes the pixels of the letterbox window whose output column lies in
/// `[lo_x, hi_x)` and output row in `[lo_y, hi_y)`; every other byte keeps
/// its value.
fn blit_window(
    src: &RenderFrame,
    dst: &mut [u8],
    stride: usize,
    format: PixelFormat,
    fit: &ScaleFit,
    lo_x: usize,
    lo_y: usize,
    hi_x: usize,
    hi_y: usize,
)
    requires
        fit_ok(*src, *fit, stride as int, format, old(dst)@.len() as int),
        lo_x <= hi_x <= fit.letterbox.visible_w,
        lo_y <= hi_y <= fit.letterbox.visible_h,
    ensures
        final(dst)@.len() == old(dst)@.len(),
        forall|k: int|
            0 <= k < old(dst)@.len() ==> #[trigger] final(dst)@[k] == if in_window(
                k,
                stride as int,
                bpp(format),
                fit.letterbox.dst_x + lo_x,
                fit.letterbox.dst_y + lo_y,
                hi_x - lo_x,
                hi_y - lo_y,
            ) {
                blit_byte(*src, *fit, stride as int, format, k)
            } else {
                old(dst)@[k]
            },
{
    let sw = src.width() as usize;
    let sh = src.height() as usize;
    let n = format.bytes_per_pixel();
    let bytes = src.rgb_bytes();
    let lb = fit.letterbox;
    let x0 = lb.dst_x as usize;
    let y0 = lb.dst_y as usize;
    let total = dst.len();
    let ghost before = dst@;
    let ghost sti = stride as int;
    let ghost ni = n as int;
    let ghost wx = (x0 + lo_x) as int;
    let ghost wy = (y0 + lo_y) as int;
    let ghost ww = (hi_x - lo_x) as int;
    let mut dy: usize = lo_y;
    while dy < hi_y
        invariant
            fit_ok(*src, *fit, sti, format, before.len() as int),
            bytes@ == src.bytes(),
            bytes@.len() == sw * sh * 3,
            sw == src.w(),
            sh == src.h(),
            lb == fit.letterbox,
            ni == n,
            n == bpp(format),
            n == 2 || n == 4,
            sti == stride,
            x0 == lb.dst_x,
            y0 == lb.dst_y,
            wx == x0 + lo_x,
            wy == y0 + lo_y,
            ww == hi_x - lo_x,
            lo_x <= hi_x <= lb.visible_w,
            lo_y <= dy <= hi_y,
            hi_y <= lb.visible_h,
            dst@.len() == before.len(),
            total == before.len(),
            forall|k: int|
                0 <= k < before.len() ==> #[trigger] dst@[k] == if in_window(k, sti, ni, wx, wy, ww, dy - lo_y) {
                    blit_byte(*src, *fit, sti, format, k)
                } else {
                    before[k]
                },
        decreases hi_y - dy,
    {
        assert((y0 + dy) * sti + sti <= (y0 + lb.visible_h) * sti) by (nonlinear_arith)
            requires
                dy < lb.visible_h,
                0 <= sti,
        ;
        assert((x0 + hi_x) * ni <= (x0 + lb.visible_w) * ni) by (nonlinear_arith)
            requires
                hi_x <= lb.visible_w,
                0 <= ni,
        ;
        assert(0 <= (y0 + dy) * sti) by (nonlinear_arith)
            requires
                0 <= sti,
        ;
        let sy = fit.row_src[dy] as usize;
        let row = (y0 + dy) * stride;
        let mut dx: usize = lo_x;
        while dx < hi_x
            invariant
                fit_ok(*src, *fit, sti, format, before.len() as int),
                bytes@ == src.bytes(),
                bytes@.len() == sw * sh * 3,
                sw == src.w(),
                sh == src.h(),
                lb == fit.letterbox,
                ni == n,
                n == bpp(format),
                n == 2 || n == 4,
                sti == stride,
                x0 == lb.dst_x,
                y0 == lb.dst_y,
                wx == x0 + lo_x,
                wy == y0 + lo_y,
                ww == hi_x - lo_x,
                lo_x <= dx <= hi_x,
                hi_x <= lb.visible_w,
                lo_y <= dy < hi_y,
                hi_y <= lb.visible_h,
                sy == fit.row_src@[dy as int],
                sy < sh,
                row == (y0 + dy) * sti,
                row + sti <= before.len(),
                (x0 + hi_x) * ni <= sti,
                dst@.len() == before.len(),
                total == before.len(),
                forall|k: int|
                    0 <= k < before.len() ==> #[trigger] dst@[k] == if in_window(k, sti, ni, wx, wy, ww, dy - lo_y)
                        || (row + wx * ni <= k < row + (x0 + dx) * ni) {
                        blit_byte(*src, *fit, sti, format, k)
                    } else {
                        before[k]
                    },
            decreases hi_x - dx,
        {
            assert((x0 + dx) * ni + ni <= (x0 + hi_x) * ni) by (nonlinear_arith)
                requires
                    dx < hi_x,
                    0 <= ni,
            ;
            let sx = fit.col_src[dx] as usize;
            let c = read_pixel(bytes, sw, sh, sx, sy);
            let off = row + (x0 + dx) * n;
            let ghost prev = dst@;
            write_pixel(dst, off, format, c.0, c.1, c.2);
            proof {
                lemma_blit_step(*src, *fit, sti, format, before, prev, dst@, wx, wy, ww, (dy - lo_y) as int, (dx - lo_x) as int, row as int, c);
            }
            dx = dx + 1;
        }
        proof {
            assert forall|k: int| 0 <= k < before.len() implies #[trigger] dst@[k] == if in_window(
                k,
                sti,
                ni,
                wx,
                wy,
                ww,
                dy + 1 - lo_y,
            ) {
                blit_byte(*src, *fit, sti, format, k)
            } else {
                before[k]
            } by {
                if sti == 0 {
                } else if row <= k < row + sti {
                    lemma_row_col(k, sti, (y0 + dy) as int, k - row);
                } else if k >= row + sti {
                    assert(k / sti >= y0 + dy + 1) by {
                        assert((y0 + dy + 1) * sti == row + sti) by (nonlinear_arith)
                            requires
                                row == (y0 + dy) * sti,
                        ;
                        lemma_row_col(row + sti, sti, (y0 + dy + 1) as int, 0);
                        vstd::arithmetic::div_mod::lemma_div_is_ordered(row + sti, k, sti);
                    }
                } else {
                    assert(k / sti < y0 + dy) by {
                        assert(y0 + dy > 0) by (nonlinear_arith)
                            requires
                                row == (y0 + dy) * sti,
                                0 <= k < row,
                                0 <= y0 + dy,
                        ;
                        assert((y0 + dy - 1) * sti + sti - 1 == row - 1) by (nonlinear_arith)
                            requires
                                row == (y0 + dy) * sti,
                        ;
                        lemma_row_col(row - 1, sti, (y0 + dy - 1) as int, sti - 1);
                        vstd::arithmetic::div_mod::lemma_div_is_ordered(k, row - 1, sti);
                    }
                }
            }
        }
        dy = dy + 1;
    }
}

/// Scales the frame into the letterbox window of a framebuffer by nearest
/// neighbour, converting each pixel to the format; bytes outside the window
/// keep their values.
pub fn blit_scale_nn(src: &RenderFrame, dst: &mut [u8], stride: usize, format: PixelFormat, fit: &ScaleFit)
    requires
        fit_ok(*src, *fit, stride as int, format, old(dst)@.len() as int),
    ensures
        final(dst)@.len() == old(dst)@.len(),
        forall|k: int|
            0 <= k < old(dst)@.len() ==> #[trigger] final(dst)@[k] == if in_window(
                k,
                stride as int,
                bpp(format),
                fit.letterbox.dst_x as int,
                fit.letterbox.dst_y as int,
                fit.letterbox.visible_w as int,
                fit.letterbox.visible_h as int,
            ) {
                blit_byte(*src, *fit, stride as int, format, k)
            } else {
                old(dst)@[k]
            },
{
    let lb = fit.letterbox;
    blit_window(src, dst, stride, format, fit, 0, 0, lb.visible_w as usize, lb.visible_h as usize);
}

} // verus!

verus! {

/// A colour as the opaque `0xAARRGGBB` word of a desktop window.
pub open spec fn argb(c: Rgb) -> u32 {
    (0xff00_0000 + (c.0 as int) * 0x1_0000 + (c.1 as int) * 0x100 + (c.2 as int)) as u32
}

/// Packs a colour as an opaque `0xAARRGGBB` word.
fn pack_argb(r: u8, g: u8, b: u8) -> (v: u32)
    ensures
        v == argb(Rgb(r, g, b)),
{
    let v: u32 = 0xff00_0000u32 | ((r as u32) << 16u32) | ((g as u32) << 8u32) | (b as u32);
    assert(v == 0xff00_0000 + r * 0x1_0000 + g * 0x100 + b) by (bit_vector)
        requires
            v == 0xff00_0000u32 | ((r as u32) << 16u32) | ((g as u32) << 8u32) | (b as u32),
    ;
    v
}

/// One more two by two block written: its four words join the written part.
proof fn lemma_double_step(
    src: RenderFrame,
    prev: Seq<u32>,
    now: Seq<u32>,
    total: int,
    dwi: int,
    sw: int,
    x: int,
    y: int,
    row0_base: int,
    v: u32,
)
    requires
        dwi == 2 * sw,
        0 <= x < sw,
        0 <= y,
        row0_base == (2 * y) * dwi,
        (2 * y + 2) * dwi <= total,
        prev.len() == total,
        v == argb(src.pixel(x, y)),
        now == prev.update(row0_base + 2 * x, v).update(row0_base + 2 * x + 1, v).update(
            row0_base + 2 * x + dwi,
            v,
        ).update(row0_base + 2 * x + dwi + 1, v),
        forall|k: int|
            0 <= k < total && (k / dwi < 2 * y || (k / dwi < 2 * y + 2 && k % dwi < 2 * x)) ==> #[trigger] prev[k]
                == argb(src.pixel((k % dwi) / 2, (k / dwi) / 2)),
    ensures
        forall|k: int|
            0 <= k < total && (k / dwi < 2 * y || (k / dwi < 2 * y + 2 && k % dwi < 2 * (x + 1))) ==> #[trigger] now[k]
                == argb(src.pixel((k % dwi) / 2, (k / dwi) / 2)),
{
    assert((2 * y + 1) * dwi == row0_base + dwi && (2 * y + 2) * dwi == row0_base + 2 * dwi) by (nonlinear_arith)
        requires
            row0_base == (2 * y) * dwi,
    ;
    assert forall|k: int|
        0 <= k < total && (k / dwi < 2 * y || (k / dwi < 2 * y + 2 && k % dwi < 2 * (x + 1))) implies #[trigger] now[k]
            == argb(src.pixel((k % dwi) / 2, (k / dwi) / 2)) by {
        vstd::arithmetic::div_mod::lemma_fundamental_div_mod(k, dwi);
        vstd::arithmetic::div_mod::lemma_mod_bound(k, dwi);
        let r = k / dwi;
        let cl = k % dwi;
        if r == 2 * y {
            assert(k == row0_base + cl) by (nonlinear_arith)
                requires
                    k == dwi * r + cl,
                    row0_base == (2 * y) * dwi,
                    r == 2 * y,
            ;
            if cl == 2 * x || cl == 2 * x + 1 {
                assert(now[k] == v);
                assert(cl / 2 == x);
                assert(r / 2 == y);
            } else {
                assert(now[k] == prev[k]);
            }
        } else if r == 2 * y + 1 {
            assert(k == row0_base + dwi + cl) by (nonlinear_arith)
                requires
                    k == dwi * r + cl,
                    row0_base == (2 * y) * dwi,
                    r == 2 * y + 1,
            ;
            if cl == 2 * x || cl == 2 * x + 1 {
                assert(now[k] == v);
                assert(cl / 2 == x);
                assert(r / 2 == y);
            } else {
                assert(now[k] == prev[k]);
            }
        } else {
            assert(r < 2 * y || r >= 2 * y + 2);
            if r < 2 * y {
                assert(k < row0_base) by (nonlinear_arith)
                    requires
                        k == dwi * r + cl,
                        cl < dwi,
                        r < 2 * y,
                        row0_base == (2 * y) * dwi,
                        0 < dwi,
                {
                    assert(dwi * r + dwi <= dwi * (2 * y)) by (nonlinear_arith)
                        requires
                            r + 1 <= 2 * y,
                            0 < dwi,
                    ;
                }
                assert(now[k] == prev[k]);
            }
        }
    }
}

/// Doubles the frame into a buffer twice as wide and twice as high: each
/// pixel becomes a two by two block of opaque `0xAARRGGBB` words.
#[verifier::rlimit(50)]
pub fn nearest_neighbour_blit_2x(src: &RenderFrame, dst: &mut [u32])
    requires
        src.wf(),
        old(dst)@.len() == (2 * src.w()) * (2 * src.h()),
    ensures
        final(dst)@.len() == old(dst)@.len(),
        forall|k: int|
            0 <= k < old(dst)@.len() ==> #[trigger] final(dst)@[k] == argb(
                src.pixel((k % (2 * src.w())) / 2, (k / (2 * src.w())) / 2),
            ),
{
    let sw = src.width() as usize;
    let sh = src.height() as usize;
    let bytes = src.rgb_bytes();
    let total = dst.len();
    let ghost before = dst@;
    if sw == 0 || sh == 0 {
        proof {
            assert(total == 0) by (nonlinear_arith)
                requires
                    total == (2 * sw) * (2 * sh),
                    sw == 0 || sh == 0,
            ;
        }
        return;
    }
    assert(sw * 2 <= total) by (nonlinear_arith)
        requires
            total == (2 * sw) * (2 * sh),
            sh >= 1,
            sw >= 1,
    ;
    let dw = sw * 2;
    let ghost dwi = dw as int;
    let mut y: usize = 0;
    while y < sh
        invariant
            bytes@ == src.bytes(),
            bytes@.len() == sw * sh * 3,
            sw == src.w(),
            sh == src.h(),
            0 < sw,
            0 < sh,
            dw == 2 * sw,
            dwi == dw,
            total == dst@.len(),
            total == dw * (2 * sh),
            y <= sh,
            forall|k: int|
                0 <= k < total && k / dwi < 2 * y ==> #[trigger] dst@[k] == argb(
                    src.pixel((k % dwi) / 2, (k / dwi) / 2),
                ),
        decreases sh - y,
    {
        assert((2 * y + 2) * dwi <= total) by (nonlinear_arith)
            requires
                y < sh,
                total == dwi * (2 * sh),
                0 <= dwi,
        ;
        assert(y * 2 * dwi == (2 * y) * dwi && (2 * y) * dwi + dwi + dwi == (2 * y + 2) * dwi) by (nonlinear_arith);
        assert(0 <= y * 2 * dwi) by (nonlinear_arith)
            requires
                0 <= y,
                0 <= dwi,
        ;
        assert(y * 2 <= total) by (nonlinear_arith)
            requires
                y < sh,
                total == dwi * (2 * sh),
                1 <= dwi,
        ;
        let row0_base = y * 2 * dw;
        let mut x: usize = 0;
        while x < sw
            invariant
                bytes@ == src.bytes(),
                bytes@.len() == sw * sh * 3,
                sw == src.w(),
                sh == src.h(),
                0 < sw,
                dw == 2 * sw,
                dwi == dw,
                total == dst@.len(),
                y < sh,
                (2 * y + 2) * dwi <= total,
                row0_base == (2 * y) * dwi,
                x <= sw,
                forall|k: int|
                    0 <= k < total && (k / dwi < 2 * y || (k / dwi < 2 * y + 2 && k % dwi < 2 * x)) ==> #[trigger] dst@[k]
                        == argb(src.pixel((k % dwi) / 2, (k / dwi) / 2)),
            decreases sw - x,
        {
            let c = read_pixel(bytes, sw, sh, x, y);
            let pixel = pack_argb(c.0, c.1, c.2);
            proof {
                assert(row0_base + x * 2 + dwi + 1 < total) by (nonlinear_arith)
                    requires
                        row0_base == (2 * y) * dwi,
                        (2 * y + 2) * dwi <= total,
                        x < sw,
                        dwi == 2 * sw,
                ;
            }
            let row0 = row0_base + x * 2;
            let row1 = row0 + dw;
            proof {
                assert(row1 + 1 < total) by (nonlinear_arith)
                    requires
                        row1 == row0_base + x * 2 + dwi,
                        row0_base == (2 * y) * dwi,
                        (2 * y + 2) * dwi <= total,
                        x < sw,
                        dwi == 2 * sw,
                ;
            }
            let ghost prev = dst@;
            dst[row0] = pixel;
            dst[row0 + 1] = pixel;
            dst[row1] = pixel;
            dst[row1 + 1] = pixel;
            proof {
                lemma_double_step(*src, prev, dst@, total as int, dwi, sw as int, x as int, y as int, row0_base as int, pixel);
            }
            x = x + 1;
        }
        proof {
            assert forall|k: int| 0 <= k < total && k / dwi < 2 * (y + 1) implies #[trigger] dst@[k] == argb(
                src.pixel((k % dwi) / 2, (k / dwi) / 2),
            ) by {
                assert(k % dwi < 2 * sw) by {
                    vstd::arithmetic::div_mod::lemma_mod_bound(k, dwi);
                }
            }
        }
        y = y + 1;
    }
    proof {
        assert forall|k: int| 0 <= k < total implies #[trigger] dst@[k] == argb(
            src.pixel((k % dwi) / 2, (k / dwi) / 2),
        ) by {
            vstd::arithmetic::div_mod::lemma_div_is_ordered(k, total - 1, dwi);
            assert((total - 1) / dwi == 2 * sh - 1) by {
                assert((2 * sh - 1) * dwi + dwi - 1 == total - 1) by (nonlinear_arith)
                    requires
                        total == dwi * (2 * sh),
                ;
                lemma_row_col(total - 1, dwi, 2 * sh - 1, dwi - 1);
            }
        }
    }
}

} // verus!

verus! {

/// Byte `k` lies in a window exactly when its row and its pixel column do,
/// and its column relative to the left edge `a` is the column minus `a`.
proof fn lemma_window_index(k: int, stride: int, n: int, x0: int, y0: int, w: int, h: int)
    requires
        0 < stride,
        0 <= k,
        0 < n,
    ensures
        in_window(k, stride, n, x0, y0, w, h) <==> (y0 <= k / stride < y0 + h && x0 <= (k % stride) / n < x0 + w),
        0 <= k % stride,
{
    vstd::arithmetic::div_mod::lemma_mod_bound(k, stride);
    lemma_pixel_of_col(k % stride, n, x0, x0 + w);
}

/// The first output index whose sample `d * s / n` reaches `a`: `ceil(a * n / s)`.
pub open spec fn first_reaching(a: int, s: int, n: int) -> int {
    (a * n + s - 1) / s
}

/// `d * s / n` reaches `a` exactly from `first_reaching(a, s, n)` on.
proof fn lemma_first_reaching(d: int, a: int, s: int, n: int)
    requires
        0 < s,
        0 < n,
        0 <= d,
        0 <= a,
    ensures
        (d * s) / n >= a <==> d >= first_reaching(a, s, n),
{
    vstd::arithmetic::div_mod::lemma_fundamental_div_mod(d * s, n);
    vstd::arithmetic::div_mod::lemma_mod_bound(d * s, n);
    vstd::arithmetic::div_mod::lemma_fundamental_div_mod(a * n + s - 1, s);
    vstd::arithmetic::div_mod::lemma_mod_bound(a * n + s - 1, s);
    let q = (d * s) / n;
    let r = (d * s) % n;
    let c = (a * n + s - 1) / s;
    let e = (a * n + s - 1) % s;
    assert(q >= a <==> d * s >= a * n) by (nonlinear_arith)
        requires
            d * s == n * q + r,
            0 <= r < n,
            0 < n,
    ;
    assert(d >= c <==> d * s >= a * n) by (nonlinear_arith)
        requires
            a * n + s - 1 == s * c + e,
            0 <= e < s,
            0 < s,
    ;
}

/// The pixels of the window whose source pixel lies in the rectangle from
/// `(sx0, sy0)` included to `(sx1, sy1)` excluded.
pub open spec fn samples_in(fit: ScaleFit, stride: int, n: int, k: int, sx0: int, sy0: int, sx1: int, sy1: int) -> bool {
    let lb = fit.letterbox;
    let dy = k / stride - lb.dst_y;
    let dx = (k % stride - lb.dst_x * n) / n;
    &&& sx0 <= fit.col_src@[dx] < sx1
    &&& sy0 <= fit.row_src@[dy] < sy1
}

/// Cutting the window to the output rows `[dy_lo, dy_hi)` and columns
/// `[dx_lo, dx_hi)` keeps exactly the pixels whose samples fall in the
/// rectangle, when those ranges are where the samples do.
proof fn lemma_dirty_window(
    fit: ScaleFit,
    stride: int,
    n: int,
    k: int,
    dx_lo: int,
    dx_hi: int,
    dy_lo: int,
    dy_hi: int,
    sx0: int,
    sy0: int,
    sx1: int,
    sy1: int,
)
    requires
        0 < stride,
        0 < n,
        0 <= k,
        0 <= dx_lo,
        dx_hi <= fit.letterbox.visible_w,
        0 <= dy_lo,
        dy_hi <= fit.letterbox.visible_h,
        forall|d: int| 0 <= d < fit.letterbox.visible_w ==> (sx0 <= #[trigger] fit.col_src@[d] < sx1 <==> dx_lo <= d < dx_hi),
        forall|d: int| 0 <= d < fit.letterbox.visible_h ==> (sy0 <= #[trigger] fit.row_src@[d] < sy1 <==> dy_lo <= d < dy_hi),
    ensures
        in_window(k, stride, n, fit.letterbox.dst_x + dx_lo, fit.letterbox.dst_y + dy_lo, dx_hi - dx_lo, dy_hi - dy_lo)
            <==> (in_window(k, stride, n, fit.letterbox.dst_x as int, fit.letterbox.dst_y as int, fit.letterbox.visible_w as int, fit.letterbox.visible_h as int)
                && samples_in(fit, stride, n, k, sx0, sy0, sx1, sy1)),
{
    let lb = fit.letterbox;
    lemma_window_index(k, stride, n, lb.dst_x as int, lb.dst_y as int, lb.visible_w as int, lb.visible_h as int);
    lemma_window_index(k, stride, n, lb.dst_x + dx_lo, lb.dst_y + dy_lo, dx_hi - dx_lo, dy_hi - dy_lo);
    let dy = k / stride - lb.dst_y;
    let dx = (k % stride) / n - lb.dst_x;
    lemma_pixel_of_col(k % stride, n, lb.dst_x as int, lb.dst_x + lb.visible_w);
    if 0 <= dx < lb.visible_w && 0 <= dy < lb.visible_h {
        assert(sx0 <= fit.col_src@[dx] < sx1 <==> dx_lo <= dx < dx_hi);
        assert(sy0 <= fit.row_src@[dy] < sy1 <==> dy_lo <= dy < dy_hi);
    }
}

/// No pixel samples an empty rectangle.
proof fn lemma_empty_samples(fit: ScaleFit, stride: int, n: int, k: int, sx0: int, sy0: int, sx1: int, sy1: int)
    requires
        sx0 >= sx1 || sy0 >= sy1,
    ensures
        !samples_in(fit, stride, n, k, sx0, sy0, sx1, sy1),
{
}

/// The part of `r` inside a `w` by `h` frame, as `(x0, y0, x1, y1)`, ends excluded.
pub open spec fn clipped_to(r: Rect, w: int, h: int) -> (int, int, int, int) {
    (
        if r.x >= 0 { r.x as int } else { 0 },
        if r.y >= 0 { r.y as int } else { 0 },
        if r.x + r.w <= w { r.x + r.w } else { w },
        if r.y + r.h <= h { r.y + r.h } else { h },
    )
}

/// Like `blit_scale_nn`, but writes only the window pixels whose source pixel
/// lies in `dirty_src` (cut to the frame); every other byte keeps its value.
/// The tables must be the exact samples `d * width / visible_width` and
/// `d * height / visible_height`, as `compute_scale_fit` makes them.
#[verifier::rlimit(50)]
pub fn blit_scale_nn_rect(
    src: &RenderFrame,
    dst: &mut [u8],
    stride: usize,
    format: PixelFormat,
    fit: &ScaleFit,
    dirty_src: Rect,
)
    requires
        fit_ok(*src, *fit, stride as int, format, old(dst)@.len() as int),
        src.w() <= i32::MAX,
        src.h() <= i32::MAX,
        forall|d: int| 0 <= d < fit.letterbox.visible_w ==> #[trigger] fit.col_src@[d] as int == (d * src.w()) / (fit.letterbox.visible_w as int),
        forall|d: int| 0 <= d < fit.letterbox.visible_h ==> #[trigger] fit.row_src@[d] as int == (d * src.h()) / (fit.letterbox.visible_h as int),
    ensures
        final(dst)@.len() == old(dst)@.len(),
        forall|k: int|
            0 <= k < old(dst)@.len() ==> #[trigger] final(dst)@[k] == if in_window(
                k,
                stride as int,
                bpp(format),
                fit.letterbox.dst_x as int,
                fit.letterbox.dst_y as int,
                fit.letterbox.visible_w as int,
                fit.letterbox.visible_h as int,
            ) && ({
                let (x0, y0, x1, y1) = clipped_to(dirty_src, src.w(), src.h());
                samples_in(*fit, stride as int, bpp(format), k, x0, y0, x1, y1)
            }) {
                blit_byte(*src, *fit, stride as int, format, k)
            } else {
                old(dst)@[k]
            },
{
    let ghost before = dst@;
    let ghost sti = stride as int;
    let sw = src.width() as i32;
    let sh = src.height() as i32;
    let n = format.bytes_per_pixel();
    let ghost ni = n as int;
    let lb = fit.letterbox;
    let scaled_w = lb.visible_w;
    let scaled_h = lb.visible_h;
    let ghost cl = clipped_to(dirty_src, sw as int, sh as int);
    let ghost cx0 = cl.0;
    let ghost cy0 = cl.1;
    let ghost cx1 = cl.2;
    let ghost cy1 = cl.3;
    if scaled_w <= 0 || scaled_h <= 0 {
        proof {
            assert forall|k: int| 0 <= k < before.len() implies !in_window(k, sti, ni, lb.dst_x as int, lb.dst_y as int, scaled_w as int, scaled_h as int) by {
                if scaled_w == 0 {
                    assert(lb.dst_x * ni == (lb.dst_x + scaled_w) * ni);
                }
            }
        }
        return;
    }
    let sx0: i32 = if dirty_src.x >= 0 { dirty_src.x } else { 0 };
    let sy0: i32 = if dirty_src.y >= 0 { dirty_src.y } else { 0 };
    let sx1: i64 = if dirty_src.x as i64 + dirty_src.w as i64 <= sw as i64 { dirty_src.x as i64 + dirty_src.w as i64 } else { sw as i64 };
    let sy1: i64 = if dirty_src.y as i64 + dirty_src.h as i64 <= sh as i64 { dirty_src.y as i64 + dirty_src.h as i64 } else { sh as i64 };
    assert(cx0 == sx0 && cx1 == sx1 && cy0 == sy0 && cy1 == sy1);
    if sx0 as i64 >= sx1 || sy0 as i64 >= sy1 {
        proof {
            assert forall|k: int| 0 <= k < before.len() && in_window(k, sti, ni, lb.dst_x as int, lb.dst_y as int, scaled_w as int, scaled_h as int)
                implies !samples_in(*fit, sti, ni, k, cx0, cy0, cx1, cy1) by {
                lemma_empty_samples(*fit, sti, ni, k, cx0, cy0, cx1, cy1);
            }
        }
        return;
    }
    proof {
        assert(0 < sw && 0 < sh);
        assert(0 <= sx0 as int * scaled_w as int <= 0x4000_0000_0000_0000) by (nonlinear_arith)
            requires
                0 <= sx0 <= i32::MAX,
                0 < scaled_w <= i32::MAX,
        ;
        assert(0 <= sx1 * scaled_w as int <= 0x4000_0000_0000_0000) by (nonlinear_arith)
            requires
                0 <= sx1 <= i32::MAX,
                0 < scaled_w <= i32::MAX,
        ;
        assert(0 <= sy0 as int * scaled_h as int <= 0x4000_0000_0000_0000) by (nonlinear_arith)
            requires
                0 <= sy0 <= i32::MAX,
                0 < scaled_h <= i32::MAX,
        ;
        assert(0 <= sy1 * scaled_h as int <= 0x4000_0000_0000_0000) by (nonlinear_arith)
            requires
                0 <= sy1 <= i32::MAX,
                0 < scaled_h <= i32::MAX,
        ;
    }
    let fx0 = (sx0 as i64 * scaled_w as i64 + sw as i64 - 1) / sw as i64;
    let fx1 = (sx1 * scaled_w as i64 + sw as i64 - 1) / sw as i64;
    let fy0 = (sy0 as i64 * scaled_h as i64 + sh as i64 - 1) / sh as i64;
    let fy1 = (sy1 * scaled_h as i64 + sh as i64 - 1) / sh as i64;
    let dx_lo: i64 = if fx0 >= 0 { fx0 } else { 0 };
    let dx_hi: i64 = if fx1 <= scaled_w as i64 { fx1 } else { scaled_w as i64 };
    let dy_lo: i64 = if fy0 >= 0 { fy0 } else { 0 };
    let dy_hi: i64 = if fy1 <= scaled_h as i64 { fy1 } else { scaled_h as i64 };
    proof {
        assert forall|d: int| 0 <= d < scaled_w implies (cx0 <= #[trigger] fit.col_src@[d] < cx1 <==> dx_lo <= d < dx_hi) by {
            lemma_first_reaching(d, sx0 as int, sw as int, scaled_w as int);
            lemma_first_reaching(d, sx1 as int, sw as int, scaled_w as int);
        }
        assert forall|d: int| 0 <= d < scaled_h implies (cy0 <= #[trigger] fit.row_src@[d] < cy1 <==> dy_lo <= d < dy_hi) by {
            lemma_first_reaching(d, sy0 as int, sh as int, scaled_h as int);
            lemma_first_reaching(d, sy1 as int, sh as int, scaled_h as int);
        }
    }
    if dx_lo >= dx_hi || dy_lo >= dy_hi {
        proof {
            assert forall|k: int| 0 <= k < before.len() && in_window(k, sti, ni, lb.dst_x as int, lb.dst_y as int, scaled_w as int, scaled_h as int)
                implies !samples_in(*fit, sti, ni, k, cx0, cy0, cx1, cy1) by {
                lemma_dirty_window(*fit, sti, ni, k, dx_lo as int, dx_hi as int, dy_lo as int, dy_hi as int, cx0, cy0, cx1, cy1);
                lemma_window_index(k, sti, ni, lb.dst_x + dx_lo, lb.dst_y + dy_lo, dx_hi - dx_lo, dy_hi - dy_lo);
            }
        }
        return;
    }
    blit_window(src, dst, stride, format, fit, dx_lo as usize, dy_lo as usize, dx_hi as usize, dy_hi as usize);
    proof {
        assert forall|k: int| 0 <= k < before.len() implies (in_window(k, sti, ni, lb.dst_x as int + dx_lo, lb.dst_y as int + dy_lo, dx_hi - dx_lo, dy_hi - dy_lo)
            <==> (in_window(k, sti, ni, lb.dst_x as int, lb.dst_y as int, scaled_w as int, scaled_h as int) && samples_in(*fit, sti, ni, k, cx0, cy0, cx1, cy1))) by {
            lemma_dirty_window(*fit, sti, ni, k, dx_lo as int, dx_hi as int, dy_lo as int, dy_hi as int, cx0, cy0, cx1, cy1);
        }
    }
}

} // verus!

verus! {

/// The tables and placement of `fit` suit a `src` frame and a buffer of
/// `len` words, `dst_w` to a row.
pub open spec fn words_fit_ok(src: RenderFrame, fit: ScaleFit, dst_w: int, len: int) -> bool {
    let lb = fit.letterbox;
    &&& src.wf()
    &&& 0 <= lb.dst_x && 0 <= lb.dst_y && 0 <= lb.visible_w && 0 <= lb.visible_h
    &&& lb.visible_w <= fit.col_src@.len()
    &&& lb.visible_h <= fit.row_src@.len()
    &&& forall|d: int| 0 <= d < lb.visible_w ==> (#[trigger] fit.col_src@[d]) < src.w()
    &&& forall|d: int| 0 <= d < lb.visible_h ==> (#[trigger] fit.row_src@[d]) < src.h()
    &&& lb.dst_x + lb.visible_w <= dst_w
    &&& (lb.dst_y + lb.visible_h) * dst_w <= len
}

/// Word `k` of a buffer `dst_w` words wide lies in the letterbox window.
pub open spec fn in_word_window(k: int, dst_w: int, fit: ScaleFit) -> bool {
    let lb = fit.letterbox;
    &&& lb.dst_y <= k / dst_w < lb.dst_y + lb.visible_h
    &&& lb.dst_x <= k % dst_w < lb.dst_x + lb.visible_w
}

/// The word a scaled blit writes at `k` of the window: the opaque colour of
/// the source pixel its column and row sample.
pub open spec fn blit_word(src: RenderFrame, fit: ScaleFit, dst_w: int, k: int) -> u32 {
    let lb = fit.letterbox;
    argb(src.pixel(fit.col_src@[k % dst_w - lb.dst_x] as int, fit.row_src@[k / dst_w - lb.dst_y] as int))
}

/// Scales `src` into a buffer of opaque `0xAARRGGBB` words, `dst_w` to a
/// row, through the lookup tables of `fit`: every word of the letterbox
/// window gets the source pixel it samples, every other word is black (0).
#[verifier::rlimit(50)]
pub fn scaled_blit_u32(src: &RenderFrame, dst: &mut [u32], dst_w: u32, fit: &ScaleFit)
    requires
        dst_w > 0,
        words_fit_ok(*src, *fit, dst_w as int, old(dst)@.len() as int),
    ensures
        final(dst)@.len() == old(dst)@.len(),
        forall|k: int|
            0 <= k < old(dst)@.len() ==> #[trigger] final(dst)@[k] == if in_word_window(k, dst_w as int, *fit) {
                blit_word(*src, *fit, dst_w as int, k)
            } else {
                0u32
            },
{
    let w = dst_w as usize;
    let ghost wi = w as int;
    let sw = src.width() as usize;
    let sh = src.height() as usize;
    let bytes = src.rgb_bytes();
    let lb = fit.letterbox;
    let x0 = lb.dst_x as usize;
    let y0 = lb.dst_y as usize;
    let vw = lb.visible_w as usize;
    let vh = lb.visible_h as usize;
    let total = dst.len();
    let mut i: usize = 0;
    while i < total
        invariant
            total == dst@.len(),
            i <= total,
            forall|k: int| 0 <= k < i ==> #[trigger] dst@[k] == 0u32,
        decreases total - i,
    {
        dst[i] = 0;
        i = i + 1;
    }
    let mut dy: usize = 0;
    while dy < vh
        invariant
            words_fit_ok(*src, *fit, wi, total as int),
            bytes@ == src.bytes(),
            bytes@.len() == sw * sh * 3,
            sw == src.w(),
            sh == src.h(),
            lb == fit.letterbox,
            wi == w,
            w > 0,
            x0 == lb.dst_x,
            y0 == lb.dst_y,
            vw == lb.visible_w,
            vh == lb.visible_h,
            dy <= vh,
            total == dst@.len(),
            forall|k: int|
                0 <= k < total ==> #[trigger] dst@[k] == if in_word_window(k, wi, *fit) && k / wi < y0 + dy {
                    blit_word(*src, *fit, wi, k)
                } else {
                    0u32
                },
        decreases vh - dy,
    {
        assert((y0 + dy) * wi + wi <= (y0 + vh) * wi) by (nonlinear_arith)
            requires
                dy < vh,
                0 <= wi,
        ;
        assert(0 <= (y0 + dy) * wi) by (nonlinear_arith)
            requires
                0 <= wi,
        ;
        let sy = fit.row_src[dy] as usize;
        let row = (y0 + dy) * w + x0;
        let mut dx: usize = 0;
        while dx < vw
            invariant
                words_fit_ok(*src, *fit, wi, total as int),
                bytes@ == src.bytes(),
                bytes@.len() == sw * sh * 3,
                sw == src.w(),
                sh == src.h(),
                lb == fit.letterbox,
                wi == w,
                w > 0,
                x0 == lb.dst_x,
                y0 == lb.dst_y,
                vw == lb.visible_w,
                vh == lb.visible_h,
                dy < vh,
                dx <= vw,
                sy == fit.row_src@[dy as int],
                sy < sh,
                row == (y0 + dy) * wi + x0,
                (y0 + dy) * wi + wi <= total,
                x0 + vw <= wi,
                total == dst@.len(),
                forall|k: int|
                    0 <= k < total ==> #[trigger] dst@[k] == if in_word_window(k, wi, *fit) && (k / wi < y0 + dy || (k
                        / wi == y0 + dy && k % wi < x0 + dx)) {
                        blit_word(*src, *fit, wi, k)
                    } else {
                        0u32
                    },
            decreases vw - dx,
        {
            let sx = fit.col_src[dx] as usize;
            assert(sx < sw);
            let c = read_pixel(bytes, sw, sh, sx, sy);
            let word = pack_argb(c.0, c.1, c.2);
            let idx = row + dx;
            let ghost prev = dst@;
            proof {
                lemma_row_col(idx as int, wi, (y0 + dy) as int, (x0 + dx) as int);
            }
            dst[idx] = word;
            proof {
                assert forall|k: int| 0 <= k < total implies #[trigger] dst@[k] == if in_word_window(k, wi, *fit) && (k
                    / wi < y0 + dy || (k / wi == y0 + dy && k % wi < x0 + dx + 1)) {
                    blit_word(*src, *fit, wi, k)
                } else {
                    0u32
                } by {
                    if k == idx {
                        assert(blit_word(*src, *fit, wi, k) == argb(src.pixel(sx as int, sy as int)));
                    } else {
                        assert(dst@[k] == prev[k]);
                        if k / wi == y0 + dy && k % wi == x0 + dx {
                            vstd::arithmetic::div_mod::lemma_fundamental_div_mod(k, wi);
                            assert(k == (y0 + dy) * wi + (x0 + dx)) by (nonlinear_arith)
                                requires
                                    k == wi * (k / wi) + k % wi,
                                    k / wi == y0 + dy,
                                    k % wi == x0 + dx,
                            ;
                        }
                    }
                }
            }
            dx = dx + 1;
        }
        proof {
            assert forall|k: int| 0 <= k < total implies #[trigger] dst@[k] == if in_word_window(k, wi, *fit) && k / wi
                < y0 + dy + 1 {
                blit_word(*src, *fit, wi, k)
            } else {
                0u32
            } by {
                vstd::arithmetic::div_mod::lemma_mod_bound(k, wi);
            }
        }
        dy = dy + 1;
    }
}

/// At exactly twice the frame's size the scaled blit is the doubling blit:
/// for any fit that places the frame into a `2w` by `2h` target (as every
/// result of `compute_scale_fit(w, h, 2w, 2h)` does), a buffer of that size
/// meets the blit's demands, the whole buffer is the letterbox window, and
/// the word `scaled_blit_u32` writes at each index is the one
/// `nearest_neighbour_blit_2x` writes there.
pub proof fn law_scaled_blit_doubles(src: RenderFrame, fit: ScaleFit, k: int)
    requires
        src.wf(),
        0 < src.w() <= 0x8000,
        0 < src.h() <= 0x8000,
        fits_target(fit, src.w(), src.h(), 2 * src.w(), 2 * src.h()),
        0 <= k < (2 * src.w()) * (2 * src.h()),
    ensures
        words_fit_ok(src, fit, 2 * src.w(), (2 * src.w()) * (2 * src.h())),
        in_word_window(k, 2 * src.w(), fit),
        blit_word(src, fit, 2 * src.w(), k) == argb(src.pixel((k % (2 * src.w())) / 2, (k / (2 * src.w())) / 2)),
        (if in_word_window(k, 2 * src.w(), fit) {
            blit_word(src, fit, 2 * src.w(), k)
        } else {
            0u32
        }) == argb(src.pixel((k % (2 * src.w())) / 2, (k / (2 * src.w())) / 2)),
{
    let w = src.w();
    let h = src.h();
    assert((w * (2 * h)) / h == 2 * w) by {
        vstd::arithmetic::div_mod::lemma_div_multiples_vanish(2 * w, h);
        assert(w * (2 * h) == h * (2 * w)) by (nonlinear_arith);
    }
    assert(scaled_size(w, h, 2 * w, 2 * h) == (2 * w, 2 * h));
    assert forall|d: int, n: int| 0 <= d && 0 < n implies #[trigger] ((d * n) / (2 * n)) == d / 2 by {
        vstd::arithmetic::div_mod::lemma_div_denominator(d * n, n, 2);
        vstd::arithmetic::div_mod::lemma_div_multiples_vanish(d, n);
        assert(n * 2 == 2 * n);
        assert(n * d == d * n) by (nonlinear_arith);
    }
    assert forall|d: int| 0 <= d < 2 * w implies #[trigger] fit.col_src@[d] as int == d / 2 by {
        assert((d * w) / (2 * w) == d / 2);
        assert(0 <= d / 2 < 0x8000);
        assert(fit.col_src@[d] == sample(d, w, 2 * w));
        assert(sample(d, w, 2 * w) == ((d / 2) as u16));
    }
    assert forall|d: int| 0 <= d < 2 * h implies #[trigger] fit.row_src@[d] as int == d / 2 by {
        assert((d * h) / (2 * h) == d / 2);
        assert(0 <= d / 2 < 0x8000);
        assert(fit.row_src@[d] == sample(d, h, 2 * h));
        assert(sample(d, h, 2 * h) == ((d / 2) as u16));
    }
    assert forall|d: int| 0 <= d < fit.letterbox.visible_w implies (#[trigger] fit.col_src@[d]) < src.w() by {
        assert(fit.col_src@[d] as int == d / 2);
    }
    assert forall|d: int| 0 <= d < fit.letterbox.visible_h implies (#[trigger] fit.row_src@[d]) < src.h() by {
        assert(fit.row_src@[d] as int == d / 2);
    }
    assert((2 * h) * (2 * w) == (2 * w) * (2 * h)) by (nonlinear_arith);
    let dw = 2 * w;
    assert(0 <= k / dw < 2 * h) by {
        vstd::arithmetic::div_mod::lemma_div_pos_is_pos(k, dw);
        vstd::arithmetic::div_mod::lemma_div_is_ordered(k, dw * (2 * h) - 1, dw);
        vstd::arithmetic::div_mod::lemma_div_multiples_vanish(2 * h, dw);
        assert(dw * (2 * h) - 1 < dw * (2 * h));
        vstd::arithmetic::div_mod::lemma_div_by_multiple(2 * h, dw);
        assert((dw * (2 * h) - 1) / dw < 2 * h) by {
            vstd::arithmetic::div_mod::lemma_fundamental_div_mod(dw * (2 * h) - 1, dw);
            assert(dw * ((dw * (2 * h) - 1) / dw) <= dw * (2 * h) - 1);
            assert(((dw * (2 * h) - 1) / dw) < 2 * h) by (nonlinear_arith)
                requires
                    dw * ((dw * (2 * h) - 1) / dw) <= dw * (2 * h) - 1,
                    dw > 0,
            ;
        }
    }
    assert(0 <= k % dw < dw) by {
        vstd::arithmetic::div_mod::lemma_mod_bound(k, dw);
    }
}

} // verus!
