use vstd::prelude::*;
use vstd::arithmetic::div_mod::lemma_div_multiples_vanish;
use crate::fixed::clamp_i32;
use crate::fixed::DEPTH_ONE;
use crate::fixed::divide;
use crate::fixed::FIXED_ONE;
use crate::fixed::HALF_PIXEL;
use crate::fixed::lemma_product_small;
use crate::fixed::quotient;
use crate::fixed::saturate;
use crate::matrix::law_mvp_of_identities;
use crate::matrix::Mat4;
use crate::matrix::mvp_product;
use crate::matrix::perspective_matrix;
use crate::point::ScreenPoint;
use crate::point::Vec3;

verus! {

/// One clip coordinate of the point `p` under `m`: row `row` of the matrix
/// times the point as a column with 1 for its fourth entry. Row 3 gives the
/// divisor of the perspective division.
pub open spec fn clip(m: Mat4, p: Vec3, row: int) -> int {
    m.at(row, 0) * p.x + m.at(row, 1) * p.y + m.at(row, 2) * p.z + m.at(row, 3) * FIXED_ONE
}

/// Where the point falls on a screen `width` pixels wide, in sub-pixel
/// units: its normalized x runs from -1 at the left edge to 1 at the right.
pub open spec fn screen_x(m: Mat4, p: Vec3, width: int) -> int {
    quotient((clip(m, p, 0) + clip(m, p, 3)) * width * HALF_PIXEL, clip(m, p, 3))
}

/// Where the point falls on a screen `height` pixels high, in sub-pixel
/// units: its normalized y runs from 1 at the top edge to -1 at the bottom,
/// for on the screen y grows downward.
pub open spec fn screen_y(m: Mat4, p: Vec3, height: int) -> int {
    quotient((clip(m, p, 3) - clip(m, p, 1)) * height * HALF_PIXEL, clip(m, p, 3))
}

/// The normalized depth of the point, in units of `1 / DEPTH_ONE`.
pub open spec fn screen_depth(m: Mat4, p: Vec3) -> int {
    quotient(clip(m, p, 2) * DEPTH_ONE, clip(m, p, 3))
}

/// The point on the screen, each coordinate brought into 32 bits, or `None`
/// where the perspective division has nothing to divide by.
pub open spec fn projected(m: Mat4, p: Vec3, width: int, height: int) -> Option<ScreenPoint> {
    if clip(m, p, 3) == 0 {
        None
    } else {
        Some(
            ScreenPoint {
                x: clamp_i32(screen_x(m, p, width)) as i32,
                y: clamp_i32(screen_y(m, p, height)) as i32,
                z: clamp_i32(screen_depth(m, p)) as i32,
            },
        )
    }
}

/// One clip coordinate.
fn clip_at(m: &Mat4, p: &Vec3, row: usize) -> (c: i128)
    requires
        row < 4,
    ensures
        c == clip(*m, *p, row as int),
        -0x4_0000_0000_0000_0000 <= c <= 0x4_0000_0000_0000_0000,
{
    proof {
        lemma_product_small(m.at(row as int, 0), p.x as int);
        lemma_product_small(m.at(row as int, 1), p.y as int);
        lemma_product_small(m.at(row as int, 2), p.z as int);
        lemma_product_small(m.at(row as int, 3), FIXED_ONE as int);
    }
    (m.m[row][0] as i128) * (p.x as i128) + (m.m[row][1] as i128) * (p.y as i128) + (
    m.m[row][2] as i128) * (p.z as i128) + (m.m[row][3] as i128) * (FIXED_ONE as i128)
}

proof fn lemma_scaled_bound(c: int, k: int)
    requires
        -0x8_0000_0000_0000_0000 <= c <= 0x8_0000_0000_0000_0000,
        0 <= k <= 0x80_0000_0000,
    ensures
        -0x4_0000_0000_0000_0000_0000_0000_0000 <= c * k <= 0x4_0000_0000_0000_0000_0000_0000_0000,
{
    assert(-0x4_0000_0000_0000_0000_0000_0000_0000 <= c * k
        <= 0x4_0000_0000_0000_0000_0000_0000_0000) by (nonlinear_arith)
        requires
            -0x8_0000_0000_0000_0000 <= c <= 0x8_0000_0000_0000_0000,
            0 <= k <= 0x80_0000_0000,
    ;
}

/// Projects a point of the model onto a screen of `screen_width` by
/// `screen_height` pixels: the point goes through `mvp`, is divided by its
/// fourth clip coordinate, and its normalized x and y are mapped to the
/// screen, y downward. Where that fourth coordinate is zero there is no
/// point on the screen.
pub fn project_vertex(mvp: &Mat4, point: &Vec3, screen_width: u32, screen_height: u32) -> (on_screen:
    Option<ScreenPoint>)
    ensures
        on_screen == projected(*mvp, *point, screen_width as int, screen_height as int),
{
    let cx = clip_at(mvp, point, 0);
    let cy = clip_at(mvp, point, 1);
    let cz = clip_at(mvp, point, 2);
    let cw = clip_at(mvp, point, 3);
    if cw == 0 {
        return None;
    }
    let wide: i128 = screen_width as i128 * HALF_PIXEL as i128;
    let high: i128 = screen_height as i128 * HALF_PIXEL as i128;
    proof {
        lemma_scaled_bound(cx + cw, wide as int);
        lemma_scaled_bound(cw - cy, high as int);
        lemma_scaled_bound(cz as int, DEPTH_ONE as int);
        assert((cx + cw) * screen_width * HALF_PIXEL == (cx + cw) * wide) by (nonlinear_arith)
            requires
                wide == screen_width * HALF_PIXEL,
        ;
        assert((cw - cy) * screen_height * HALF_PIXEL == (cw - cy) * high) by (nonlinear_arith)
            requires
                high == screen_height * HALF_PIXEL,
        ;
    }
    let x = saturate(divide((cx + cw) * wide, cw));
    let y = saturate(divide((cw - cy) * high, cw));
    let z = saturate(divide(cz * (DEPTH_ONE as i128), cw));
    Some(ScreenPoint { x, y, z })
}

/// A multiple of the divisor divides out.
proof fn lemma_quotient_of_multiple(d: int, k: int)
    requires
        d != 0,
        k >= 0,
    ensures
        quotient(d * k, d) == k,
{
    if d > 0 {
        assert(d * k >= 0) by (nonlinear_arith)
            requires
                d > 0,
                k >= 0,
        ;
        lemma_div_multiples_vanish(k, d);
    } else {
        assert(-(d * k) == (-d) * k) by (nonlinear_arith);
        assert((-d) * k >= 0) by (nonlinear_arith)
            requires
                d < 0,
                k >= 0,
        ;
        lemma_div_multiples_vanish(k, -d);
    }
}

/// A point on the axis of view falls on the center of the screen. If the x
/// and y rows of the matrix take nothing from a point's z nor from its
/// fourth entry, as it is with a perspective projection seen from the origin
/// along the z axis, then every point `(0, 0, z)` that can be divided lands
/// at half the width and half the height, at every depth.
pub proof fn law_axis_projects_to_center(m: Mat4, p: Vec3, width: int, height: int)
    requires
        m.at(0, 2) == 0 && m.at(0, 3) == 0,
        m.at(1, 2) == 0 && m.at(1, 3) == 0,
        p.x == 0 && p.y == 0,
        clip(m, p, 3) != 0,
        0 <= width,
        0 <= height,
    ensures
        screen_x(m, p, width) == width * HALF_PIXEL,
        screen_y(m, p, height) == height * HALF_PIXEL,
        projected(m, p, width, height) matches Some(s) && s.x == clamp_i32(width * HALF_PIXEL)
            && s.y == clamp_i32(height * HALF_PIXEL),
{
    let cw = clip(m, p, 3);
    assert(clip(m, p, 0) == 0) by (nonlinear_arith)
        requires
            clip(m, p, 0) == m.at(0, 0) * p.x + m.at(0, 1) * p.y + m.at(0, 2) * p.z + m.at(0, 3)
                * FIXED_ONE,
            m.at(0, 2) == 0 && m.at(0, 3) == 0,
            p.x == 0 && p.y == 0,
    ;
    assert(clip(m, p, 1) == 0) by (nonlinear_arith)
        requires
            clip(m, p, 1) == m.at(1, 0) * p.x + m.at(1, 1) * p.y + m.at(1, 2) * p.z + m.at(1, 3)
                * FIXED_ONE,
            m.at(1, 2) == 0 && m.at(1, 3) == 0,
            p.x == 0 && p.y == 0,
    ;
    assert((0 + cw) * width * HALF_PIXEL == cw * (width * HALF_PIXEL)) by (nonlinear_arith);
    assert((cw - 0) * height * HALF_PIXEL == cw * (height * HALF_PIXEL)) by (nonlinear_arith);
    lemma_quotient_of_multiple(cw, width * HALF_PIXEL);
    lemma_quotient_of_multiple(cw, height * HALF_PIXEL);
}

/// A camera at the origin that looks down the negative z axis, with the
/// identity for its view and for its model matrix, sees every point
/// `(0, 0, -d)` in front of it, `d > 0`, at the center of the screen.
pub proof fn law_camera_axis_projects_to_center(
    focal: i32,
    aspect: i32,
    near: i32,
    far: i32,
    p: Vec3,
    width: int,
    height: int,
)
    requires
        perspective_matrix(focal, aspect, near, far).is_some(),
        p.x == 0 && p.y == 0 && p.z < 0,
        0 <= width,
        0 <= height,
    ensures
        ({
            let projection = perspective_matrix(focal, aspect, near, far).unwrap();
            &&& mvp_product(projection, Mat4::identity_matrix(), Mat4::identity_matrix()) == Some(
                projection,
            )
            &&& projected(projection, p, width, height) matches Some(s) && s.x == clamp_i32(
                width * HALF_PIXEL,
            ) && s.y == clamp_i32(height * HALF_PIXEL)
        }),
{
    let projection = perspective_matrix(focal, aspect, near, far).unwrap();
    law_mvp_of_identities(projection);
    assert(projection.at(3, 0) == 0 && projection.at(3, 1) == 0 && projection.at(3, 2) == -65536
        && projection.at(3, 3) == 0);
    assert(projection.at(0, 2) == 0 && projection.at(0, 3) == 0);
    assert(projection.at(1, 2) == 0 && projection.at(1, 3) == 0);
    assert(clip(projection, p, 3) == -65536 * p.z) by (nonlinear_arith)
        requires
            clip(projection, p, 3) == projection.at(3, 0) * p.x + projection.at(3, 1) * p.y
                + projection.at(3, 2) * p.z + projection.at(3, 3) * FIXED_ONE,
            projection.at(3, 0) == 0 && projection.at(3, 1) == 0 && projection.at(3, 2) == -65536
                && projection.at(3, 3) == 0,
    ;
    law_axis_projects_to_center(projection, p, width, height);
}

} // verus!
