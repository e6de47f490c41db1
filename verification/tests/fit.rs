use workplacesim::render::fit::{compute_scale_fit, Letterbox};

#[test]
fn scale_fit_exact_2x_1280x720() {
    let fit = compute_scale_fit(640, 360, 1280, 720);
    assert_eq!(
        fit.letterbox,
        Letterbox { dst_x: 0, dst_y: 0, visible_w: 1280, visible_h: 720 }
    );
    assert_eq!(fit.col_src[0], 0);
    assert_eq!(fit.col_src[1], 0);
    assert_eq!(fit.col_src[2], 1);
    assert_eq!(fit.col_src[3], 1);
    assert_eq!(*fit.col_src.last().unwrap(), 639);
    assert_eq!(*fit.row_src.last().unwrap(), 359);
}

#[test]
fn scale_fit_exact_3x_1920x1080() {
    let fit = compute_scale_fit(640, 360, 1920, 1080);
    assert_eq!(
        fit.letterbox,
        Letterbox { dst_x: 0, dst_y: 0, visible_w: 1920, visible_h: 1080 }
    );
}

#[test]
fn scale_fit_1024x768_is_pillarbox_free_and_vertically_letterboxed() {
    let fit = compute_scale_fit(640, 360, 1024, 768);
    assert_eq!(
        fit.letterbox,
        Letterbox { dst_x: 0, dst_y: 96, visible_w: 1024, visible_h: 576 }
    );
    assert_eq!(fit.col_src[0], 0);
    assert_eq!(*fit.col_src.last().unwrap(), 639);
    assert_eq!(fit.col_src.len(), 1024);
    assert_eq!(fit.row_src.len(), 576);
}

#[test]
fn scale_fit_clamps_both_axes_on_tiny_fb() {
    let fit = compute_scale_fit(640, 360, 640, 480);
    assert_eq!(
        fit.letterbox,
        Letterbox { dst_x: 0, dst_y: 60, visible_w: 640, visible_h: 360 }
    );
}

#[test]
fn scale_fit_zero_dimensions_safe() {
    let fit = compute_scale_fit(640, 360, 0, 720);
    assert_eq!(fit.letterbox.visible_w, 0);
    assert_eq!(fit.letterbox.visible_h, 0);
    assert!(fit.col_src.is_empty());
    assert!(fit.row_src.is_empty());
}

#[test]
fn scale_fit_pillarboxes_a_tall_panel() {
    // A 4:3 source into 16:9 is limited by height and centred horizontally.
    let fit = compute_scale_fit(400, 300, 1600, 900);
    assert_eq!(fit.letterbox, Letterbox { dst_x: 200, dst_y: 0, visible_w: 1200, visible_h: 900 });
    assert!(fit.letterbox.dst_x + fit.letterbox.visible_w <= 1600);
}
