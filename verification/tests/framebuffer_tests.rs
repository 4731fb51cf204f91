use soft_render::color::Color;
use soft_render::framebuffer::Framebuffer;
use soft_render::framebuffer::DEPTH_INFINITY;

#[test]
fn new_buffer_is_black_at_infinite_depth() {
    let fb = Framebuffer::new(3, 2);
    assert_eq!(fb.width(), 3);
    assert_eq!(fb.height(), 2);
    assert_eq!(fb.buffer().len(), 6);
    for y in 0..2 {
        for x in 0..3 {
            assert_eq!(fb.get_pixel(x, y), Some(Color::black()));
            assert_eq!(fb.get_depth(x, y), Some(DEPTH_INFINITY));
        }
    }
}

#[test]
fn empty_buffer_has_no_pixels() {
    let mut fb = Framebuffer::new(0, 5);
    assert_eq!(fb.buffer().len(), 0);
    assert_eq!(fb.get_pixel(0, 0), None);
    fb.set_pixel(0, 0, Color::red());
    assert!(!fb.set_pixel_with_depth(0, 0, 1, Color::red()));
    fb.draw_line(-3, -3, 3, 3, Color::red());
    assert_eq!(fb.buffer().len(), 0);
}

#[test]
fn color_new_keeps_channels() {
    let c = Color::new(1, 2, 3);
    assert_eq!(c.r, 1);
    assert_eq!(c.g, 2);
    assert_eq!(c.b, 3);
    assert_eq!(Color::white(), Color::new(255, 255, 255));
    assert_eq!(Color::green(), Color::new(0, 255, 0));
    assert_eq!(Color::blue(), Color::new(0, 0, 255));
}

#[test]
fn set_pixel_writes_row_major() {
    let mut fb = Framebuffer::new(4, 3);
    fb.set_pixel(1, 2, Color::red());
    assert_eq!(fb.get_pixel(1, 2), Some(Color::red()));
    assert_eq!(fb.buffer()[2 * 4 + 1], Color::red());
    let reds = fb.buffer().iter().filter(|c| **c == Color::red()).count();
    assert_eq!(reds, 1);
    // No depth is touched by a plain write.
    assert_eq!(fb.get_depth(1, 2), Some(DEPTH_INFINITY));
}

#[test]
fn set_pixel_outside_is_ignored() {
    let mut fb = Framebuffer::new(4, 3);
    fb.set_pixel(-1, 0, Color::red());
    fb.set_pixel(0, -1, Color::red());
    fb.set_pixel(4, 0, Color::red());
    fb.set_pixel(0, 3, Color::red());
    fb.set_pixel(i32::MAX, i32::MIN, Color::red());
    assert!(fb.buffer().iter().all(|c| *c == Color::black()));
}

#[test]
fn get_pixel_outside_is_none() {
    let fb = Framebuffer::new(4, 3);
    assert_eq!(fb.get_pixel(-1, 0), None);
    assert_eq!(fb.get_pixel(4, 0), None);
    assert_eq!(fb.get_pixel(0, 3), None);
    assert_eq!(fb.get_pixel(0, -1), None);
    assert_eq!(fb.get_depth(4, 2), None);
    assert_eq!(fb.get_pixel(3, 2), Some(Color::black()));
}

#[test]
fn depth_test_is_strict() {
    let mut fb = Framebuffer::new(2, 2);
    assert!(fb.set_pixel_with_depth(1, 1, 500, Color::red()));
    assert_eq!(fb.get_pixel(1, 1), Some(Color::red()));
    assert_eq!(fb.get_depth(1, 1), Some(500));
    // A tie keeps the fragment that was drawn first.
    assert!(!fb.set_pixel_with_depth(1, 1, 500, Color::blue()));
    assert_eq!(fb.get_pixel(1, 1), Some(Color::red()));
    // Farther is rejected, nearer is drawn.
    assert!(!fb.set_pixel_with_depth(1, 1, 501, Color::blue()));
    assert!(fb.set_pixel_with_depth(1, 1, 499, Color::blue()));
    assert_eq!(fb.get_pixel(1, 1), Some(Color::blue()));
    assert_eq!(fb.get_depth(1, 1), Some(499));
    // The other pixels never changed.
    assert_eq!(fb.get_pixel(0, 0), Some(Color::black()));
    assert_eq!(fb.get_depth(0, 1), Some(DEPTH_INFINITY));
}

#[test]
fn depth_test_outside_draws_nothing() {
    let mut fb = Framebuffer::new(2, 2);
    assert!(!fb.set_pixel_with_depth(2, 0, -5, Color::red()));
    assert!(!fb.set_pixel_with_depth(0, -1, -5, Color::red()));
    assert!(fb.buffer().iter().all(|c| *c == Color::black()));
}

#[test]
fn infinite_depth_is_never_drawn() {
    let mut fb = Framebuffer::new(1, 1);
    assert!(!fb.set_pixel_with_depth(0, 0, DEPTH_INFINITY, Color::red()));
    assert!(fb.set_pixel_with_depth(0, 0, DEPTH_INFINITY - 1, Color::red()));
}

#[test]
fn depth_keeps_the_minimum_of_a_sequence() {
    let mut fb = Framebuffer::new(3, 3);
    let offers: [(i32, Color); 6] = [
        (70, Color::new(1, 0, 0)),
        (90, Color::new(2, 0, 0)),
        (30, Color::new(3, 0, 0)),
        (30, Color::new(4, 0, 0)),
        (-10, Color::new(5, 0, 0)),
        (40, Color::new(6, 0, 0)),
    ];
    let drawn: Vec<bool> =
        offers.iter().map(|(z, c)| fb.set_pixel_with_depth(2, 1, *z, *c)).collect();
    assert_eq!(drawn, vec![true, false, true, false, true, false]);
    assert_eq!(fb.get_depth(2, 1), Some(-10));
    assert_eq!(fb.get_pixel(2, 1), Some(Color::new(5, 0, 0)));
}

#[test]
fn clear_resets_colors_and_depths() {
    let mut fb = Framebuffer::new(3, 2);
    assert!(fb.set_pixel_with_depth(1, 1, 7, Color::red()));
    fb.set_pixel(0, 0, Color::blue());
    fb.clear(Color::green());
    for y in 0..2 {
        for x in 0..3 {
            assert_eq!(fb.get_pixel(x, y), Some(Color::green()));
            assert_eq!(fb.get_depth(x, y), Some(DEPTH_INFINITY));
        }
    }
    // After a clear any finite depth is drawn, even one that lost before.
    assert!(fb.set_pixel_with_depth(1, 1, 1000, Color::red()));
    assert!(fb.set_pixel_with_depth(0, 0, DEPTH_INFINITY - 1, Color::red()));
    assert!(fb.set_pixel_with_depth(2, 1, i32::MIN, Color::red()));
    fb.clear(Color::green());
    let once: Vec<Color> = fb.buffer().to_vec();
    fb.clear(Color::green());
    assert_eq!(fb.buffer().to_vec(), once);
}

fn lit(fb: &Framebuffer, c: Color) -> Vec<(i32, i32)> {
    let mut out = Vec::new();
    for y in 0..fb.height() as i32 {
        for x in 0..fb.width() as i32 {
            if fb.get_pixel(x, y) == Some(c) {
                out.push((x, y));
            }
        }
    }
    out
}

#[test]
fn horizontal_line() {
    let mut fb = Framebuffer::new(6, 3);
    fb.draw_line(1, 1, 4, 1, Color::red());
    assert_eq!(lit(&fb, Color::red()), vec![(1, 1), (2, 1), (3, 1), (4, 1)]);
}

#[test]
fn vertical_line_is_steep() {
    let mut fb = Framebuffer::new(3, 6);
    fb.draw_line(1, 4, 1, 1, Color::red());
    assert_eq!(lit(&fb, Color::red()), vec![(1, 1), (1, 2), (1, 3), (1, 4)]);
}

#[test]
fn single_point_line() {
    let mut fb = Framebuffer::new(3, 3);
    fb.draw_line(2, 0, 2, 0, Color::red());
    assert_eq!(lit(&fb, Color::red()), vec![(2, 0)]);
}

#[test]
fn diagonal_line() {
    let mut fb = Framebuffer::new(4, 4);
    fb.draw_line(0, 0, 3, 3, Color::red());
    assert_eq!(lit(&fb, Color::red()), vec![(0, 0), (1, 1), (2, 2), (3, 3)]);
    let mut other = Framebuffer::new(4, 4);
    other.draw_line(0, 3, 3, 0, Color::red());
    assert_eq!(lit(&other, Color::red()), vec![(3, 0), (2, 1), (1, 2), (0, 3)]);
}

#[test]
fn shallow_line_rounds_half_down() {
    // dx = 5, dy = 2: rows 0 0 1 1 2 2 along the columns.
    let mut fb = Framebuffer::new(6, 3);
    fb.draw_line(0, 0, 5, 2, Color::red());
    assert_eq!(lit(&fb, Color::red()), vec![(0, 0), (1, 0), (2, 1), (3, 1), (4, 2), (5, 2)]);
    // dx = 2, dy = 1: the middle pixel is half way and stays on the first row.
    let mut half = Framebuffer::new(3, 2);
    half.draw_line(0, 0, 2, 1, Color::red());
    assert_eq!(lit(&half, Color::red()), vec![(0, 0), (1, 0), (2, 1)]);
}

#[test]
fn steep_line_walks_rows() {
    let mut fb = Framebuffer::new(3, 6);
    fb.draw_line(0, 0, 2, 5, Color::red());
    assert_eq!(lit(&fb, Color::red()), vec![(0, 0), (0, 1), (1, 2), (1, 3), (2, 4), (2, 5)]);
}

#[test]
fn line_is_directionless() {
    let ends = [(0, 0, 7, 3), (6, 1, 1, 5), (2, 7, 5, 0), (0, 4, 7, 4), (3, 0, 3, 7), (7, 7, 0, 1)];
    for (x0, y0, x1, y1) in ends {
        let mut forward = Framebuffer::new(8, 8);
        let mut backward = Framebuffer::new(8, 8);
        forward.draw_line(x0, y0, x1, y1, Color::red());
        backward.draw_line(x1, y1, x0, y0, Color::red());
        assert_eq!(forward.buffer().to_vec(), backward.buffer().to_vec());
        assert_eq!(forward.get_pixel(x0, y0), Some(Color::red()));
        assert_eq!(forward.get_pixel(x1, y1), Some(Color::red()));
    }
}

#[test]
fn line_is_clipped_to_the_buffer() {
    let mut fb = Framebuffer::new(4, 4);
    fb.draw_line(-2, -2, 5, 5, Color::red());
    assert_eq!(lit(&fb, Color::red()), vec![(0, 0), (1, 1), (2, 2), (3, 3)]);
}

#[test]
fn line_ignores_depth() {
    let mut fb = Framebuffer::new(4, 1);
    assert!(fb.set_pixel_with_depth(1, 0, -1000, Color::blue()));
    fb.draw_line(0, 0, 3, 0, Color::red());
    assert_eq!(fb.get_pixel(1, 0), Some(Color::red()));
    assert_eq!(fb.get_depth(1, 0), Some(-1000));
    assert_eq!(fb.get_depth(0, 0), Some(DEPTH_INFINITY));
}
