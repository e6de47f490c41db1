use workplacesim::render::fb::{
    blit_scale_nn, blit_scale_nn_rect, clear_fb, nearest_neighbour_blit_2x, pack_rgb565,
    pack_xrgb8888, PixelFormat,
};
use workplacesim::render::fit::{compute_scale_fit, Letterbox};
use workplacesim::render::frame::RenderFrame;
use workplacesim::render::geometry::Rect;
use workplacesim::render::palette::Rgb;

#[test]
fn rgb565_pure_colors() {
    assert_eq!(pack_rgb565(0xff, 0, 0), [0x00, 0xf8]);
    assert_eq!(pack_rgb565(0, 0xff, 0), [0xe0, 0x07]);
    assert_eq!(pack_rgb565(0, 0, 0xff), [0x1f, 0x00]);
    assert_eq!(pack_rgb565(0, 0, 0), [0x00, 0x00]);
    assert_eq!(pack_rgb565(0xff, 0xff, 0xff), [0xff, 0xff]);
}

#[test]
fn rgb565_truncates_low_bits() {
    assert_eq!(pack_rgb565(0x07, 0x03, 0x07), [0x00, 0x00]);
    assert_eq!(pack_rgb565(0x80, 0x80, 0x80), {
        let v: u16 = ((0x80 & 0xf8) << 8) | ((0x80 & 0xfc) << 3) | (0x80 >> 3);
        v.to_le_bytes()
    });
}

#[test]
fn xrgb8888_byte_order() {
    assert_eq!(pack_xrgb8888(0x11, 0x22, 0x33), [0x33, 0x22, 0x11, 0xff]);
    assert_eq!(pack_xrgb8888(0, 0, 0), [0, 0, 0, 0xff]);
}

#[test]
fn bytes_per_pixel_matches_format() {
    assert_eq!(PixelFormat::Rgb565.bytes_per_pixel(), 2);
    assert_eq!(PixelFormat::Xrgb8888.bytes_per_pixel(), 4);
}

#[test]
fn blit_scale_nn_writes_2x2_blocks_rgb565() {
    let mut src = RenderFrame::new(2, 1);
    src.set_pixel(0, 0, Rgb(0xff, 0, 0));
    src.set_pixel(1, 0, Rgb(0, 0xff, 0));
    let stride = 4 * 2;
    let mut dst = vec![0u8; stride * 2];
    let fit = compute_scale_fit(2, 1, 4, 2);
    blit_scale_nn(&src, &mut dst, stride, PixelFormat::Rgb565, &fit);

    let red = pack_rgb565(0xff, 0, 0);
    let green = pack_rgb565(0, 0xff, 0);
    assert_eq!(&dst[0..2], &red);
    assert_eq!(&dst[2..4], &red);
    assert_eq!(&dst[4..6], &green);
    assert_eq!(&dst[6..8], &green);
    assert_eq!(&dst[8..10], &red);
    assert_eq!(&dst[10..12], &red);
    assert_eq!(&dst[12..14], &green);
    assert_eq!(&dst[14..16], &green);
}

#[test]
fn blit_scale_nn_writes_2x2_blocks_xrgb8888() {
    let mut src = RenderFrame::new(2, 1);
    src.set_pixel(0, 0, Rgb(0xff, 0, 0));
    src.set_pixel(1, 0, Rgb(0, 0, 0xff));
    let stride = 4 * 4;
    let mut dst = vec![0u8; stride * 2];
    let fit = compute_scale_fit(2, 1, 4, 2);
    blit_scale_nn(&src, &mut dst, stride, PixelFormat::Xrgb8888, &fit);

    let red = pack_xrgb8888(0xff, 0, 0);
    let blue = pack_xrgb8888(0, 0, 0xff);
    assert_eq!(&dst[0..4], &red);
    assert_eq!(&dst[4..8], &red);
    assert_eq!(&dst[8..12], &blue);
    assert_eq!(&dst[12..16], &blue);
    assert_eq!(&dst[16..20], &red);
    assert_eq!(&dst[20..24], &red);
    assert_eq!(&dst[24..28], &blue);
    assert_eq!(&dst[28..32], &blue);
}

#[test]
fn blit_scale_nn_centres_in_letterboxed_fb() {
    let mut src = RenderFrame::new(2, 1);
    src.set_pixel(0, 0, Rgb(0xff, 0, 0));
    src.set_pixel(1, 0, Rgb(0, 0, 0xff));
    let stride = 4 * 4;
    let mut dst = vec![0u8; stride * 4];
    let fit = compute_scale_fit(2, 1, 4, 4);
    assert_eq!(fit.letterbox, Letterbox { dst_x: 0, dst_y: 1, visible_w: 4, visible_h: 2 });
    blit_scale_nn(&src, &mut dst, stride, PixelFormat::Xrgb8888, &fit);

    assert_eq!(&dst[0..stride], &[0u8; 16]);
    let red = pack_xrgb8888(0xff, 0, 0);
    let blue = pack_xrgb8888(0, 0, 0xff);
    for row in [1, 2] {
        let row_off = row * stride;
        assert_eq!(&dst[row_off..row_off + 4], &red);
        assert_eq!(&dst[row_off + 4..row_off + 8], &red);
        assert_eq!(&dst[row_off + 8..row_off + 12], &blue);
        assert_eq!(&dst[row_off + 12..row_off + 16], &blue);
    }
    assert_eq!(&dst[3 * stride..4 * stride], &[0u8; 16]);
}

#[test]
fn blit_scale_nn_1024x768_downscale_does_not_clip() {
    let src = RenderFrame::new(640, 360);
    let fit = compute_scale_fit(640, 360, 1024, 768);
    let mut seen = [false; 640];
    for &sx in &fit.col_src {
        seen[sx as usize] = true;
    }
    assert!(seen.iter().all(|&b| b), "not every src column is sampled");
    let stride = 1024 * 2;
    let mut dst = vec![0u8; stride * 768];
    blit_scale_nn(&src, &mut dst, stride, PixelFormat::Rgb565, &fit);
}

#[test]
fn blit_scale_nn_rect_only_touches_dirty_region() {
    let mut src = RenderFrame::new(4, 4);
    for y in 0..4 {
        for x in 0..4 {
            src.set_pixel(x, y, Rgb(0xff, 0x80, 0x40));
        }
    }
    let stride = 8 * 4;
    let mut dst = vec![0u8; stride * 8];
    let fit = compute_scale_fit(4, 4, 8, 8);
    let dirty = Rect::new(1, 1, 2, 2);
    blit_scale_nn_rect(&src, &mut dst, stride, PixelFormat::Xrgb8888, &fit, dirty);

    let painted = pack_xrgb8888(0xff, 0x80, 0x40);
    let zero = [0u8; 4];
    for y in 0..2 {
        let row = y * stride;
        for x in 0..8 {
            assert_eq!(&dst[row + x * 4..row + x * 4 + 4], &zero, "row {y} col {x}");
        }
    }
    for y in 2..6 {
        let row = y * stride;
        for x in 0..8 {
            let off = row + x * 4;
            let expected = if (2..6).contains(&x) { painted } else { zero };
            assert_eq!(&dst[off..off + 4], &expected, "row {y} col {x}");
        }
    }
    for y in 6..8 {
        let row = y * stride;
        for x in 0..8 {
            assert_eq!(&dst[row + x * 4..row + x * 4 + 4], &zero, "row {y} col {x}");
        }
    }
}

#[test]
fn blit_scale_nn_rect_with_out_of_bounds_source_rect_is_noop() {
    let src = RenderFrame::new(4, 4);
    let stride = 8 * 4;
    let mut dst = vec![0u8; stride * 8];
    let fit = compute_scale_fit(4, 4, 8, 8);
    blit_scale_nn_rect(&src, &mut dst, stride, PixelFormat::Xrgb8888, &fit, Rect::new(100, 100, 10, 10));
    assert!(dst.iter().all(|&b| b == 0));
}

#[test]
fn blit_scale_nn_rect_matches_full_blit_on_a_downscale() {
    // Non-integer scale: the rectangle blit writes exactly the pixels of the
    // full blit that sample the dirty rectangle.
    let mut src = RenderFrame::new(10, 6);
    for y in 0..6 {
        for x in 0..10 {
            src.set_pixel(x, y, Rgb((x * 20) as u8, (y * 40) as u8, 7));
        }
    }
    let fit = compute_scale_fit(10, 6, 7, 5);
    let stride = 7 * 2 + 2;
    let mut full = vec![0xaau8; stride * 5];
    blit_scale_nn(&src, &mut full, stride, PixelFormat::Rgb565, &fit);
    let dirty = Rect::new(3, 2, 4, 3);
    let mut part = vec![0xaau8; stride * 5];
    blit_scale_nn_rect(&src, &mut part, stride, PixelFormat::Rgb565, &fit, dirty);
    let lb = fit.letterbox;
    for k in 0..part.len() {
        let row = k / stride;
        let col = k % stride;
        let inside = row >= lb.dst_y as usize
            && row < (lb.dst_y + lb.visible_h) as usize
            && col >= lb.dst_x as usize * 2
            && col < (lb.dst_x + lb.visible_w) as usize * 2;
        let sampled = inside && {
            let dy = row - lb.dst_y as usize;
            let dx = col / 2 - lb.dst_x as usize;
            let sx = fit.col_src[dx] as i32;
            let sy = fit.row_src[dy] as i32;
            (3..7).contains(&sx) && (2..5).contains(&sy)
        };
        assert_eq!(part[k], if sampled { full[k] } else { 0xaa }, "byte {k}");
    }
}

#[test]
fn clear_fb_xrgb_writes_opaque_black() {
    let stride = 4 * 4;
    let mut dst = vec![0xcc; stride * 2];
    clear_fb(&mut dst, stride, PixelFormat::Xrgb8888, 4, 2);
    for chunk in dst.chunks_exact(4) {
        assert_eq!(chunk, &[0, 0, 0, 0xff]);
    }
}

#[test]
fn clear_fb_rgb565_writes_zeroes() {
    let stride = 4 * 2;
    let mut dst = vec![0xcc; stride * 2];
    clear_fb(&mut dst, stride, PixelFormat::Rgb565, 4, 2);
    for chunk in dst.chunks_exact(2) {
        assert_eq!(chunk, &[0, 0]);
    }
}

#[test]
fn clear_fb_leaves_row_padding_alone() {
    let stride = 3 * 2 + 4;
    let mut dst = vec![0xcc; stride * 2 + 5];
    clear_fb(&mut dst, stride, PixelFormat::Rgb565, 3, 2);
    for (k, &b) in dst.iter().enumerate() {
        let in_target = k / stride < 2 && k % stride < 6;
        assert_eq!(b, if in_target { 0 } else { 0xcc }, "byte {k}");
    }
}

#[test]
fn blit_2x_doubles_each_pixel() {
    let mut src = RenderFrame::new(2, 2);
    src.set_pixel(0, 0, Rgb(0xff, 0, 0));
    src.set_pixel(1, 0, Rgb(0, 0xff, 0));
    src.set_pixel(0, 1, Rgb(0, 0, 0xff));
    src.set_pixel(1, 1, Rgb(0xff, 0xff, 0));
    let mut dst = vec![0u32; 4 * 4];
    nearest_neighbour_blit_2x(&src, &mut dst);
    assert_eq!(dst[0], 0xffff_0000);
    assert_eq!(dst[1], 0xffff_0000);
    assert_eq!(dst[4], 0xffff_0000);
    assert_eq!(dst[5], 0xffff_0000);
    assert_eq!(dst[2], 0xff00_ff00);
    assert_eq!(dst[8], 0xff00_00ff);
    assert_eq!(dst[10], 0xffff_ff00);
}
