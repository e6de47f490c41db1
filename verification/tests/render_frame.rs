use workplacesim::render::frame::RenderFrame;
use workplacesim::render::geometry::{Point, Rect};
use workplacesim::render::palette::Rgb;

#[test]
fn render_frame_set_and_get_pixel() {
    let mut f = RenderFrame::new(4, 4);
    f.set_pixel(1, 2, Rgb(10, 20, 30));
    assert_eq!(f.get_pixel(1, 2), Rgb(10, 20, 30));
    assert_eq!(f.get_pixel(0, 0), Rgb(0, 0, 0));
    f.set_pixel(-1, 0, Rgb(1, 2, 3));
    f.set_pixel(10, 0, Rgb(1, 2, 3));
    assert_eq!(f.get_pixel(0, 0), Rgb(0, 0, 0));
}

#[test]
fn fill_rect_clips() {
    let mut f = RenderFrame::new(4, 4);
    f.fill_rect(Rect::new(-2, -2, 4, 4), Rgb(7, 7, 7));
    assert_eq!(f.get_pixel(0, 0), Rgb(7, 7, 7));
    assert_eq!(f.get_pixel(1, 1), Rgb(7, 7, 7));
    assert_eq!(f.get_pixel(2, 2), Rgb(0, 0, 0));
}

#[test]
fn stroke_rect_is_four_lines() {
    let mut f = RenderFrame::new(5, 5);
    f.stroke_rect(Rect::new(0, 0, 5, 5), Rgb(9, 9, 9));
    assert_eq!(f.get_pixel(2, 2), Rgb(0, 0, 0));
    assert_eq!(f.get_pixel(0, 0), Rgb(9, 9, 9));
    assert_eq!(f.get_pixel(4, 4), Rgb(9, 9, 9));
    assert_eq!(f.get_pixel(2, 0), Rgb(9, 9, 9));
}

#[test]
fn fill_circle_radius_1() {
    let mut f = RenderFrame::new(5, 5);
    f.fill_circle(2, 2, 1, Rgb(4, 4, 4));
    assert_eq!(f.get_pixel(2, 2), Rgb(4, 4, 4));
    assert_eq!(f.get_pixel(1, 2), Rgb(4, 4, 4));
    assert_eq!(f.get_pixel(2, 1), Rgb(4, 4, 4));
    assert_eq!(f.get_pixel(0, 0), Rgb(0, 0, 0));
}

#[test]
fn get_pixel_outside_reads_black() {
    let mut f = RenderFrame::new(3, 2);
    f.clear(Rgb(5, 6, 7));
    assert_eq!(f.get_pixel(2, 1), Rgb(5, 6, 7));
    assert_eq!(f.get_pixel(3, 0), Rgb(0, 0, 0));
    assert_eq!(f.get_pixel(0, -1), Rgb(0, 0, 0));
    assert_eq!(f.rgb_bytes().len(), 3 * 2 * 3);
}

#[test]
fn clear_paints_every_pixel() {
    let mut f = RenderFrame::new(3, 3);
    f.set_pixel(1, 1, Rgb(1, 1, 1));
    f.clear(Rgb(200, 100, 50));
    for y in 0..3 {
        for x in 0..3 {
            assert_eq!(f.get_pixel(x, y), Rgb(200, 100, 50));
        }
    }
}

#[test]
fn hline_and_vline_include_both_ends_in_either_order() {
    let mut f = RenderFrame::new(6, 6);
    f.draw_hline(4, 1, 2, Rgb(3, 3, 3));
    for x in 0..6 {
        assert_eq!(f.get_pixel(x, 2), if (1..=4).contains(&x) { Rgb(3, 3, 3) } else { Rgb(0, 0, 0) });
    }
    f.draw_vline(5, 3, 0, Rgb(8, 8, 8));
    for y in 0..6 {
        assert_eq!(f.get_pixel(5, y), if (0..=3).contains(&y) { Rgb(8, 8, 8) } else { Rgb(0, 0, 0) });
    }
}

#[test]
fn draw_line_hits_both_ends_and_stays_in_its_box() {
    let mut f = RenderFrame::new(12, 12);
    let a = Point::new(1, 9);
    let b = Point::new(10, 2);
    f.draw_line(a, b, Rgb(1, 2, 3));
    assert_eq!(f.get_pixel(1, 9), Rgb(1, 2, 3));
    assert_eq!(f.get_pixel(10, 2), Rgb(1, 2, 3));
    let mut painted = 0;
    for y in 0..12 {
        for x in 0..12 {
            if f.get_pixel(x, y) == Rgb(1, 2, 3) {
                painted += 1;
                assert!((1..=10).contains(&x) && (2..=9).contains(&y));
            }
        }
    }
    // A line over 9 columns and 7 rows is 10 pixels long.
    assert_eq!(painted, 10);
}

#[test]
fn draw_line_degenerate_point() {
    let mut f = RenderFrame::new(3, 3);
    f.draw_line(Point::new(1, 1), Point::new(1, 1), Rgb(9, 0, 0));
    assert_eq!(f.get_pixel(1, 1), Rgb(9, 0, 0));
    assert_eq!(f.get_pixel(0, 1), Rgb(0, 0, 0));
}

#[test]
fn draw_line_clips_outside_the_frame() {
    let mut f = RenderFrame::new(4, 4);
    f.draw_line(Point::new(-3, 0), Point::new(6, 0), Rgb(2, 2, 2));
    for x in 0..4 {
        assert_eq!(f.get_pixel(x, 0), Rgb(2, 2, 2));
        assert_eq!(f.get_pixel(x, 1), Rgb(0, 0, 0));
    }
}
