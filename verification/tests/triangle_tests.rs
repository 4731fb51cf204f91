use soft_render::barycentric::barycentric_coordinates;
use soft_render::barycentric::interpolate_color;
use soft_render::barycentric::interpolate_depth;
use soft_render::barycentric::is_degenerate;
use soft_render::barycentric::is_inside_triangle;
use soft_render::point::ScreenPoint;
use soft_render::fixed::DEPTH_ONE;
use soft_render::fixed::HALF_PIXEL;
use soft_render::fixed::SUBPIXEL;
use soft_render::color::Color;
use soft_render::framebuffer::Framebuffer;
use soft_render::framebuffer::DEPTH_INFINITY;
use soft_render::triangle::draw_triangle_filled;
use soft_render::triangle::draw_triangle_wireframe;
use soft_render::triangle::Vertex3D;

/// A screen point from coordinates in half pixels and a depth in tenths.
fn point(half_x: i32, half_y: i32, tenths: i32) -> ScreenPoint {
    ScreenPoint { x: half_x * HALF_PIXEL, y: half_y * HALF_PIXEL, z: tenths * (DEPTH_ONE / 10) }
}

fn vertex(half_x: i32, half_y: i32, tenths: i32, color: Color) -> Vertex3D {
    Vertex3D::new(point(half_x, half_y, tenths), color)
}

fn center(x: i32, y: i32) -> ScreenPoint {
    ScreenPoint { x: x * SUBPIXEL + HALF_PIXEL, y: y * SUBPIXEL + HALF_PIXEL, z: 0 }
}

#[test]
fn weights_at_the_corners() {
    let a = point(1, 1, 0);
    let b = point(7, 1, 0);
    let c = point(1, 7, 0);
    let at_a = barycentric_coordinates(&a, &a, &b, &c).unwrap();
    assert_eq!((at_a.w, at_a.v, at_a.u), (at_a.denom, 0, 0));
    let at_b = barycentric_coordinates(&b, &a, &b, &c).unwrap();
    assert_eq!((at_b.w, at_b.v, at_b.u), (0, at_b.denom, 0));
    let at_c = barycentric_coordinates(&c, &a, &b, &c).unwrap();
    assert_eq!((at_c.w, at_c.v, at_c.u), (0, 0, at_c.denom));
}

#[test]
fn weights_exact_values() {
    // Corners at (0,0), (4,0), (0,4) in sub-pixel units, point (1,2).
    let a = ScreenPoint { x: 0, y: 0, z: 0 };
    let b = ScreenPoint { x: 4, y: 0, z: 0 };
    let c = ScreenPoint { x: 0, y: 4, z: 0 };
    let p = ScreenPoint { x: 1, y: 2, z: 0 };
    let w = barycentric_coordinates(&p, &a, &b, &c).unwrap();
    // 1/4 to a, 1/4 to b, 1/2 to c, over twice the area 16.
    assert_eq!((w.w, w.v, w.u, w.denom), (4, 4, 8, 16));
    // The other winding gives the same fractions.
    let r = barycentric_coordinates(&p, &a, &c, &b).unwrap();
    assert_eq!((r.w, r.v, r.u, r.denom), (4, 8, 4, 16));
}

#[test]
fn weights_ignore_depth() {
    let p = ScreenPoint { x: 1, y: 2, z: 77 };
    let flat = barycentric_coordinates(
        &p,
        &ScreenPoint { x: 0, y: 0, z: 0 },
        &ScreenPoint { x: 4, y: 0, z: 0 },
        &ScreenPoint { x: 0, y: 4, z: 0 },
    )
    .unwrap();
    let tilted = barycentric_coordinates(
        &p,
        &ScreenPoint { x: 0, y: 0, z: -900 },
        &ScreenPoint { x: 4, y: 0, z: 31 },
        &ScreenPoint { x: 0, y: 4, z: 5000 },
    )
    .unwrap();
    assert_eq!((flat.w, flat.v, flat.u, flat.denom), (tilted.w, tilted.v, tilted.u, tilted.denom));
}

#[test]
fn weights_sum_to_the_denominator() {
    let a = ScreenPoint { x: -37, y: 410, z: 0 };
    let b = ScreenPoint { x: 999, y: -3, z: 0 };
    let c = ScreenPoint { x: 250, y: 777, z: 0 };
    for px in [-2000, -37, 0, 13, 400, 999, 5000] {
        for py in [-3000, -3, 0, 410, 600, 777, 9000] {
            let p = ScreenPoint { x: px, y: py, z: 0 };
            let w = barycentric_coordinates(&p, &a, &b, &c).unwrap();
            assert!(w.denom > 0);
            assert_eq!(w.w + w.v + w.u, w.denom);
            // The weights give the point back.
            assert_eq!(w.denom * px as i128, w.w * a.x as i128 + w.v * b.x as i128 + w.u * c.x as i128);
            assert_eq!(w.denom * py as i128, w.w * a.y as i128 + w.v * b.y as i128 + w.u * c.y as i128);
        }
    }
}

#[test]
fn weights_at_the_extremes_do_not_overflow() {
    let a = ScreenPoint { x: i32::MIN, y: i32::MIN, z: 0 };
    let b = ScreenPoint { x: i32::MAX, y: i32::MIN, z: 0 };
    let c = ScreenPoint { x: i32::MIN, y: i32::MAX, z: 0 };
    let p = ScreenPoint { x: i32::MAX, y: i32::MAX, z: 0 };
    let w = barycentric_coordinates(&p, &a, &b, &c).unwrap();
    let side = i32::MAX as i128 - i32::MIN as i128;
    assert_eq!(w.denom, side * side);
    assert_eq!((w.w, w.v, w.u), (-side * side, side * side, side * side));
    assert!(!is_inside_triangle(&w));
}

#[test]
fn degenerate_triangle_has_no_weights() {
    let a = point(1, 1, 0);
    let b = point(3, 3, 0);
    let c = point(5, 5, 0);
    assert!(is_degenerate(&a, &b, &c));
    assert!(barycentric_coordinates(&point(2, 2, 0), &a, &b, &c).is_none());
    assert!(is_degenerate(&a, &a, &a));
    assert!(barycentric_coordinates(&a, &a, &a, &a).is_none());
    assert!(!is_degenerate(&a, &b, &point(5, 1, 0)));
}

#[test]
fn inside_and_outside_points() {
    let a = point(1, 1, 0);
    let b = point(7, 1, 0);
    let c = point(1, 7, 0);
    // Strictly inside: three positive weights.
    let inside = barycentric_coordinates(&point(2, 2, 0), &a, &b, &c).unwrap();
    assert!(inside.w > 0 && inside.v > 0 && inside.u > 0);
    assert!(is_inside_triangle(&inside));
    // On an edge: a zero weight, still inside.
    let edge = barycentric_coordinates(&point(4, 4, 0), &a, &b, &c).unwrap();
    assert_eq!(edge.w, 0);
    assert!(is_inside_triangle(&edge));
    // Strictly outside, beyond each edge in turn.
    for p in [point(5, 5, 0), point(0, 3, 0), point(3, 0, 0), point(-9, -9, 0), point(40, 1, 0)] {
        let outside = barycentric_coordinates(&p, &a, &b, &c).unwrap();
        assert!(outside.w < 0 || outside.v < 0 || outside.u < 0);
        assert!(!is_inside_triangle(&outside));
    }
}

#[test]
fn interpolation_exact_values() {
    let a = ScreenPoint { x: 0, y: 0, z: 0 };
    let b = ScreenPoint { x: 4, y: 0, z: 0 };
    let c = ScreenPoint { x: 0, y: 4, z: 0 };
    let w = barycentric_coordinates(&ScreenPoint { x: 1, y: 2, z: 0 }, &a, &b, &c).unwrap();
    // 1/4 * 100 + 1/4 * 200 + 1/2 * 400 = 275.
    assert_eq!(interpolate_depth(&w, 100, 200, 400), 275);
    // 1/4 * 1 + 1/4 * 2 + 1/2 * 4 = 2.75, rounded toward zero, on both sides.
    assert_eq!(interpolate_depth(&w, 1, 2, 4), 2);
    assert_eq!(interpolate_depth(&w, -1, -2, -4), -2);
    assert_eq!(interpolate_depth(&w, i32::MIN, i32::MIN, i32::MIN), i32::MIN);
    assert_eq!(interpolate_depth(&w, i32::MAX, i32::MAX, i32::MAX), i32::MAX);
    // Channels: r = 255/4 = 63.75, g = 255/4 = 63.75, b = 255/2 = 127.5.
    let mixed = interpolate_color(&w, Color::red(), Color::green(), Color::blue());
    assert_eq!(mixed, Color::new(63, 63, 127));
    assert_eq!(interpolate_color(&w, Color::white(), Color::white(), Color::white()), Color::white());
    // At a corner the corner's values come back.
    let at_b = barycentric_coordinates(&b, &a, &b, &c).unwrap();
    assert_eq!(interpolate_depth(&at_b, 100, 200, 400), 200);
    assert_eq!(interpolate_color(&at_b, Color::red(), Color::green(), Color::blue()), Color::green());
}

fn lower_left(z_tenths: i32, color: Color) -> [Vertex3D; 3] {
    [vertex(1, 1, z_tenths, color), vertex(7, 1, z_tenths, color), vertex(1, 7, z_tenths, color)]
}

#[test]
fn filled_triangle_covers_the_lower_left_half() {
    let mut fb = Framebuffer::new(4, 4);
    fb.clear(Color::black());
    let t = lower_left(5, Color::red());
    draw_triangle_filled(&mut fb, &t[0], &t[1], &t[2]);
    let half = 5 * (DEPTH_ONE / 10);
    for y in 0..4 {
        for x in 0..4 {
            if x + y <= 3 {
                assert_eq!(fb.get_pixel(x, y), Some(Color::red()));
                assert_eq!(fb.get_depth(x, y), Some(half));
            } else {
                assert_eq!(fb.get_pixel(x, y), Some(Color::black()));
                assert_eq!(fb.get_depth(x, y), Some(DEPTH_INFINITY));
            }
        }
    }
}

#[test]
fn nearer_triangle_wins_and_farther_is_rejected() {
    let mut fb = Framebuffer::new(4, 4);
    fb.clear(Color::black());
    let far = lower_left(8, Color::red());
    draw_triangle_filled(&mut fb, &far[0], &far[1], &far[2]);
    assert_eq!(fb.get_pixel(1, 1), Some(Color::red()));
    assert_eq!(fb.get_depth(1, 1), Some(8 * (DEPTH_ONE / 10)));
    // A small triangle around pixel (1, 1), nearer.
    let near = [
        vertex(2, 2, 2, Color::blue()),
        vertex(5, 2, 2, Color::blue()),
        vertex(2, 5, 2, Color::blue()),
    ];
    draw_triangle_filled(&mut fb, &near[0], &near[1], &near[2]);
    assert_eq!(fb.get_pixel(1, 1), Some(Color::blue()));
    assert_eq!(fb.get_depth(1, 1), Some(2 * (DEPTH_ONE / 10)));
    // Where only the first triangle reaches, it stays.
    assert_eq!(fb.get_pixel(0, 0), Some(Color::red()));
    assert_eq!(fb.get_pixel(3, 0), Some(Color::red()));
    // A third one behind both changes nothing.
    let before: Vec<Color> = fb.buffer().to_vec();
    let behind = lower_left(9, Color::green());
    draw_triangle_filled(&mut fb, &behind[0], &behind[1], &behind[2]);
    assert_eq!(fb.buffer().to_vec(), before);
    assert_eq!(fb.get_pixel(1, 1), Some(Color::blue()));
    assert_eq!(fb.get_depth(1, 1), Some(2 * (DEPTH_ONE / 10)));
    assert_eq!(fb.get_depth(0, 0), Some(8 * (DEPTH_ONE / 10)));
}

#[test]
fn winding_does_not_matter() {
    let mut one = Framebuffer::new(4, 4);
    let mut other = Framebuffer::new(4, 4);
    let t = lower_left(5, Color::red());
    draw_triangle_filled(&mut one, &t[0], &t[1], &t[2]);
    draw_triangle_filled(&mut other, &t[2], &t[1], &t[0]);
    assert_eq!(one.buffer().to_vec(), other.buffer().to_vec());
}

#[test]
fn degenerate_triangle_draws_nothing() {
    let mut fb = Framebuffer::new(4, 4);
    let a = vertex(1, 1, 5, Color::red());
    let b = vertex(3, 3, 5, Color::red());
    let c = vertex(7, 7, 5, Color::red());
    draw_triangle_filled(&mut fb, &a, &b, &c);
    draw_triangle_filled(&mut fb, &a, &a, &a);
    assert!(fb.buffer().iter().all(|p| *p == Color::black()));
    assert_eq!(fb.get_depth(0, 0), Some(DEPTH_INFINITY));
}

#[test]
fn triangle_outside_the_depth_range_draws_nothing() {
    let mut fb = Framebuffer::new(4, 4);
    let mut t = lower_left(5, Color::red());
    t[1].position.z = DEPTH_ONE + 1;
    draw_triangle_filled(&mut fb, &t[0], &t[1], &t[2]);
    assert!(fb.buffer().iter().all(|p| *p == Color::black()));
    t[1].position.z = -DEPTH_ONE - 1;
    draw_triangle_filled(&mut fb, &t[0], &t[1], &t[2]);
    assert!(fb.buffer().iter().all(|p| *p == Color::black()));
    // The planes themselves are in range.
    t[1].position.z = DEPTH_ONE;
    t[0].position.z = -DEPTH_ONE;
    draw_triangle_filled(&mut fb, &t[0], &t[1], &t[2]);
    assert_eq!(fb.get_depth(0, 0), Some(-DEPTH_ONE));
    assert_eq!(fb.get_depth(3, 0), Some(DEPTH_ONE));
}

#[test]
fn triangle_is_clamped_to_the_buffer() {
    let mut fb = Framebuffer::new(3, 3);
    let a = vertex(-2001, -2001, 5, Color::red());
    let b = vertex(4001, -2001, 5, Color::red());
    let c = vertex(-2001, 4001, 5, Color::red());
    draw_triangle_filled(&mut fb, &a, &b, &c);
    assert!(fb.buffer().iter().all(|p| *p == Color::red()));
    // Wholly off the screen: nothing.
    let mut none = Framebuffer::new(3, 3);
    let d = vertex(-100, -100, 5, Color::red());
    let e = vertex(-50, -100, 5, Color::red());
    let f = vertex(-100, -50, 5, Color::red());
    draw_triangle_filled(&mut none, &d, &e, &f);
    assert!(none.buffer().iter().all(|p| *p == Color::black()));
}

#[test]
fn colors_and_depths_are_blended() {
    let mut fb = Framebuffer::new(4, 4);
    let a = Vertex3D::new(point(1, 1, 0), Color::red());
    let b = Vertex3D::new(point(7, 1, 3), Color::green());
    let c = Vertex3D::new(point(1, 7, 6), Color::blue());
    draw_triangle_filled(&mut fb, &a, &b, &c);
    let tenth = DEPTH_ONE / 10;
    assert_eq!(fb.get_pixel(0, 0), Some(Color::red()));
    assert_eq!(fb.get_depth(0, 0), Some(0));
    assert_eq!(fb.get_pixel(3, 0), Some(Color::green()));
    assert_eq!(fb.get_depth(3, 0), Some(3 * tenth));
    assert_eq!(fb.get_pixel(0, 3), Some(Color::blue()));
    assert_eq!(fb.get_depth(0, 3), Some(6 * tenth));
    // Pixel (1, 1): weights 1/3 each.
    assert_eq!(fb.get_pixel(1, 1), Some(Color::new(85, 85, 85)));
    assert_eq!(fb.get_depth(1, 1), Some(3 * tenth));
    // Pixel (2, 1) on the far edge: 0 to a, 2/3 to b, 1/3 to c.
    assert_eq!(fb.get_pixel(2, 1), Some(Color::new(0, 170, 85)));
    assert_eq!(fb.get_depth(2, 1), Some(4 * tenth));
    // What the rasterizer draws is what the weights give at the center.
    let w = barycentric_coordinates(&center(1, 0), &a.position, &b.position, &c.position).unwrap();
    assert!(is_inside_triangle(&w));
    assert_eq!(fb.get_pixel(1, 0), Some(interpolate_color(&w, a.color, b.color, c.color)));
    assert_eq!(
        fb.get_depth(1, 0),
        Some(interpolate_depth(&w, a.position.z, b.position.z, c.position.z))
    );
}

#[test]
fn wireframe_draws_three_edges_without_depth() {
    let mut fb = Framebuffer::new(4, 4);
    assert!(fb.set_pixel_with_depth(0, 0, -7, Color::blue()));
    let t = lower_left(9, Color::red());
    draw_triangle_wireframe(&mut fb, &t[0], &t[1], &t[2], Color::green());
    // Corners at pixels (0,0), (3,0), (0,3): two legs and the diagonal.
    for y in 0..4 {
        for x in 0..4 {
            let on_edge = x == 0 || y == 0 || x + y == 3;
            let expected = if on_edge { Color::green() } else { Color::black() };
            assert_eq!(fb.get_pixel(x, y), Some(expected));
        }
    }
    assert_eq!(fb.get_depth(0, 0), Some(-7));
    assert_eq!(fb.get_depth(1, 1), Some(DEPTH_INFINITY));
}

#[test]
fn wireframe_corners_round_toward_zero() {
    let mut fb = Framebuffer::new(3, 3);
    let a = Vertex3D::new(ScreenPoint { x: -255, y: -1, z: 0 }, Color::red());
    let b = Vertex3D::new(ScreenPoint { x: 511, y: 255, z: 0 }, Color::red());
    let c = Vertex3D::new(ScreenPoint { x: 256, y: 767, z: 0 }, Color::red());
    draw_triangle_wireframe(&mut fb, &a, &b, &c, Color::white());
    // Pixels (0,0), (1,0), (1,2).
    assert_eq!(fb.get_pixel(0, 0), Some(Color::white()));
    assert_eq!(fb.get_pixel(1, 0), Some(Color::white()));
    assert_eq!(fb.get_pixel(1, 2), Some(Color::white()));
    assert_eq!(fb.get_pixel(1, 1), Some(Color::white()));
    assert_eq!(fb.get_pixel(2, 2), Some(Color::black()));
    assert_eq!(fb.get_pixel(2, 0), Some(Color::black()));
}
