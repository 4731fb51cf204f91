use vstd::prelude::*;
use vstd::arithmetic::div_mod::lemma_div_is_ordered;
use vstd::arithmetic::div_mod::lemma_div_multiples_vanish;
use crate::color::Color;
use crate::fixed::lemma_product_small;
use crate::fixed::trunc_div;
use crate::point::ScreenPoint;

verus! {

/// No triangle with 32-bit coordinates has twice its area above this.
pub const MAX_DENOM: i128 = 0x2_0000_0000_0000_0000;

/// The barycentric weights of a point relative to a triangle `a`, `b`, `c`,
/// as fractions with one positive denominator: the weight of `a` is
/// `w / denom`, that of `b` is `v / denom`, that of `c` is `u / denom`.
pub struct Weights {
    pub w: int,
    pub v: int,
    pub u: int,
    pub denom: int,
}

impl Weights {
    /// The denominator is positive and in range, and the weights sum to one.
    pub open spec fn wf(self) -> bool {
        &&& 0 < self.denom <= MAX_DENOM
        &&& self.w + self.v + self.u == self.denom
    }

    /// No weight is negative: the point lies in the triangle, edges and
    /// corners included.
    pub open spec fn is_inside(self) -> bool {
        self.w >= 0 && self.v >= 0 && self.u >= 0
    }
}

pub open spec fn cross(ax: int, ay: int, bx: int, by: int) -> int {
    ax * by - ay * bx
}

pub open spec fn dot(ax: int, ay: int, bx: int, by: int) -> int {
    ax * bx + ay * by
}

/// Twice the area of the triangle `a`, `b`, `c` on the screen, with the sign
/// of its winding. It is zero exactly for a degenerate triangle.
pub open spec fn signed_area(a: ScreenPoint, b: ScreenPoint, c: ScreenPoint) -> int {
    cross(c.x - a.x, c.y - a.y, b.x - a.x, b.y - a.y)
}

/// The barycentric weights of the point `(px, py)` relative to the triangle
/// `a`, `b`, `c` on the screen. Depths play no part. The weight of a corner
/// is the area that the point spans with the opposite edge, over the area of
/// the triangle.
pub open spec fn weights(px: int, py: int, a: ScreenPoint, b: ScreenPoint, c: ScreenPoint) -> Weights {
    let area = signed_area(a, b, c);
    let toward_c = cross(px - a.x, py - a.y, b.x - a.x, b.y - a.y);
    let toward_b = cross(c.x - a.x, c.y - a.y, px - a.x, py - a.y);
    if area < 0 {
        Weights { w: toward_c + toward_b - area, v: -toward_b, u: -toward_c, denom: -area }
    } else {
        Weights { w: area - toward_c - toward_b, v: toward_b, u: toward_c, denom: area }
    }
}

/// `(px, py)` and the corner `opposite` lie strictly on the same side of the
/// edge from `e0` to `e1`.
pub open spec fn strictly_same_side(
    e0: ScreenPoint,
    e1: ScreenPoint,
    opposite: ScreenPoint,
    px: int,
    py: int,
) -> bool {
    let corner = cross(e1.x - e0.x, e1.y - e0.y, opposite.x - e0.x, opposite.y - e0.y);
    let point = cross(e1.x - e0.x, e1.y - e0.y, px - e0.x, py - e0.y);
    (corner > 0 && point > 0) || (corner < 0 && point < 0)
}

/// `(px, py)` and the corner `opposite` lie strictly on different sides of
/// the edge from `e0` to `e1`.
pub open spec fn strictly_across(
    e0: ScreenPoint,
    e1: ScreenPoint,
    opposite: ScreenPoint,
    px: int,
    py: int,
) -> bool {
    let corner = cross(e1.x - e0.x, e1.y - e0.y, opposite.x - e0.x, opposite.y - e0.y);
    let point = cross(e1.x - e0.x, e1.y - e0.y, px - e0.x, py - e0.y);
    (corner > 0 && point < 0) || (corner < 0 && point > 0)
}

/// The point lies in the open interior of the triangle: on the inner side of
/// each of the three edges.
pub open spec fn strictly_inside(px: int, py: int, a: ScreenPoint, b: ScreenPoint, c: ScreenPoint) -> bool {
    &&& strictly_same_side(a, b, c, px, py)
    &&& strictly_same_side(b, c, a, px, py)
    &&& strictly_same_side(c, a, b, px, py)
}

/// The point lies strictly outside the triangle: beyond at least one edge.
pub open spec fn strictly_outside(px: int, py: int, a: ScreenPoint, b: ScreenPoint, c: ScreenPoint) -> bool {
    ||| strictly_across(a, b, c, px, py)
    ||| strictly_across(b, c, a, px, py)
    ||| strictly_across(c, a, b, px, py)
}

/// The areas that a point spans with the three edges, against the area of
/// the triangle.
proof fn lemma_edge_areas(
    px: int,
    py: int,
    ax: int,
    ay: int,
    bx: int,
    by: int,
    cx: int,
    cy: int,
)
    ensures
        cross(bx - ax, by - ay, cx - ax, cy - ay) == -cross(cx - ax, cy - ay, bx - ax, by - ay),
        cross(bx - ax, by - ay, px - ax, py - ay) == -cross(px - ax, py - ay, bx - ax, by - ay),
        cross(ax - cx, ay - cy, bx - cx, by - cy) == -cross(cx - ax, cy - ay, bx - ax, by - ay),
        cross(ax - cx, ay - cy, px - cx, py - cy) == -cross(cx - ax, cy - ay, px - ax, py - ay),
        cross(cx - bx, cy - by, ax - bx, ay - by) == -cross(cx - ax, cy - ay, bx - ax, by - ay),
        cross(cx - bx, cy - by, px - bx, py - by) == -(cross(cx - ax, cy - ay, bx - ax, by - ay)
            - cross(px - ax, py - ay, bx - ax, by - ay) - cross(
            cx - ax,
            cy - ay,
            px - ax,
            py - ay,
        )),
{
    assert(cross(bx - ax, by - ay, cx - ax, cy - ay) == -cross(cx - ax, cy - ay, bx - ax, by - ay))
        by (nonlinear_arith);
    assert(cross(bx - ax, by - ay, px - ax, py - ay) == -cross(px - ax, py - ay, bx - ax, by - ay))
        by (nonlinear_arith);
    assert(cross(ax - cx, ay - cy, bx - cx, by - cy) == -cross(cx - ax, cy - ay, bx - ax, by - ay))
        by (nonlinear_arith);
    assert(cross(ax - cx, ay - cy, px - cx, py - cy) == -cross(cx - ax, cy - ay, px - ax, py - ay))
        by (nonlinear_arith);
    assert(cross(cx - bx, cy - by, ax - bx, ay - by) == -cross(cx - ax, cy - ay, bx - ax, by - ay))
        by (nonlinear_arith);
    assert(cross(cx - bx, cy - by, px - bx, py - by) == -(cross(cx - ax, cy - ay, bx - ax, by - ay)
        - cross(px - ax, py - ay, bx - ax, by - ay) - cross(cx - ax, cy - ay, px - ax, py - ay)))
        by (nonlinear_arith);
}

/// The weights of a point relative to a triangle that is not degenerate sum
/// to one: the three numerators add up to the denominator, which is
/// positive.
pub proof fn law_weights_sum_to_one(px: int, py: int, a: ScreenPoint, b: ScreenPoint, c: ScreenPoint)
    requires
        signed_area(a, b, c) != 0,
    ensures
        weights(px, py, a, b, c).w + weights(px, py, a, b, c).v + weights(px, py, a, b, c).u
            == weights(px, py, a, b, c).denom,
        weights(px, py, a, b, c).denom > 0,
{
}

/// Weights and position agree. A point strictly inside a triangle has three
/// positive weights, so none is negative. A point strictly outside has at
/// least one negative weight.
pub proof fn law_inside_outside(px: int, py: int, a: ScreenPoint, b: ScreenPoint, c: ScreenPoint)
    ensures
        strictly_inside(px, py, a, b, c) ==> weights(px, py, a, b, c).w > 0 && weights(
            px,
            py,
            a,
            b,
            c,
        ).v > 0 && weights(px, py, a, b, c).u > 0 && weights(px, py, a, b, c).is_inside(),
        strictly_outside(px, py, a, b, c) ==> !weights(px, py, a, b, c).is_inside(),
        signed_area(a, b, c) != 0 ==> (weights(px, py, a, b, c).is_inside() <==> !strictly_outside(
            px,
            py,
            a,
            b,
            c,
        )),
{
    lemma_edge_areas(
        px,
        py,
        a.x as int,
        a.y as int,
        b.x as int,
        b.y as int,
        c.x as int,
        c.y as int,
    );
}

/// The weights locate the point: it is the combination of the three corners
/// with these weights, in each coordinate.
pub proof fn law_weights_locate_point(px: int, py: int, a: ScreenPoint, b: ScreenPoint, c: ScreenPoint)
    ensures
        ({
            let wt = weights(px, py, a, b, c);
            &&& wt.denom * px == wt.w * a.x + wt.v * b.x + wt.u * c.x
            &&& wt.denom * py == wt.w * a.y + wt.v * b.y + wt.u * c.y
        }),
{
    let wt = weights(px, py, a, b, c);
    let e0x = c.x - a.x;
    let e0y = c.y - a.y;
    let e1x = b.x - a.x;
    let e1y = b.y - a.y;
    let e2x = px - a.x;
    let e2y = py - a.y;
    let area = cross(e0x, e0y, e1x, e1y);
    let tc = cross(e2x, e2y, e1x, e1y);
    let tb = cross(e0x, e0y, e2x, e2y);
    lemma_decompose(e0x, e0y, e1x, e1y, e2x, e2y);
    lemma_recombine(wt.denom, wt.u, wt.v, wt.w, px, a.x as int, b.x as int, c.x as int, area, tc, tb);
    lemma_recombine(wt.denom, wt.u, wt.v, wt.w, py, a.y as int, b.y as int, c.y as int, area, tc, tb);
}

/// From the decomposition of `p - a` over the two edges at `a` to the
/// combination of the three corners, in one coordinate.
proof fn lemma_recombine(
    d: int,
    u: int,
    v: int,
    w: int,
    p: int,
    a: int,
    b: int,
    c: int,
    area: int,
    tc: int,
    tb: int,
)
    requires
        area * (p - a) == tc * (c - a) + tb * (b - a),
        (d == area && u == tc && v == tb) || (d == -area && u == -tc && v == -tb),
        w == d - u - v,
    ensures
        d * p == w * a + v * b + u * c,
{
    assert(d * (p - a) == u * (c - a) + v * (b - a)) by (nonlinear_arith)
        requires
            area * (p - a) == tc * (c - a) + tb * (b - a),
            (d == area && u == tc && v == tb) || (d == -area && u == -tc && v == -tb),
    ;
    assert(d * (p - a) == d * p - d * a) by (nonlinear_arith);
    assert(u * (c - a) == u * c - u * a) by (nonlinear_arith);
    assert(v * (b - a) == v * b - v * a) by (nonlinear_arith);
    assert((d - u - v) * a == d * a - u * a - v * a) by (nonlinear_arith);
}

/// A point in a triangle lies in the triangle's bounding box.
pub proof fn lemma_inside_within_box(
    px: int,
    py: int,
    a: ScreenPoint,
    b: ScreenPoint,
    c: ScreenPoint,
    lo_x: int,
    hi_x: int,
    lo_y: int,
    hi_y: int,
)
    requires
        signed_area(a, b, c) != 0,
        weights(px, py, a, b, c).is_inside(),
        lo_x <= a.x <= hi_x,
        lo_x <= b.x <= hi_x,
        lo_x <= c.x <= hi_x,
        lo_y <= a.y <= hi_y,
        lo_y <= b.y <= hi_y,
        lo_y <= c.y <= hi_y,
    ensures
        lo_x <= px <= hi_x,
        lo_y <= py <= hi_y,
{
    let wt = weights(px, py, a, b, c);
    law_weights_locate_point(px, py, a, b, c);
    lemma_combination_between(wt, px, a.x as int, b.x as int, c.x as int, lo_x, hi_x);
    lemma_combination_between(wt, py, a.y as int, b.y as int, c.y as int, lo_y, hi_y);
}

proof fn lemma_combination_between(wt: Weights, p: int, a: int, b: int, c: int, lo: int, hi: int)
    requires
        wt.denom > 0,
        wt.w + wt.v + wt.u == wt.denom,
        wt.is_inside(),
        wt.denom * p == wt.w * a + wt.v * b + wt.u * c,
        lo <= a <= hi,
        lo <= b <= hi,
        lo <= c <= hi,
    ensures
        lo <= p <= hi,
{
    let d = wt.denom;
    assert(wt.w * lo <= wt.w * a <= wt.w * hi) by (nonlinear_arith)
        requires
            wt.w >= 0,
            lo <= a <= hi,
    ;
    assert(wt.v * lo <= wt.v * b <= wt.v * hi) by (nonlinear_arith)
        requires
            wt.v >= 0,
            lo <= b <= hi,
    ;
    assert(wt.u * lo <= wt.u * c <= wt.u * hi) by (nonlinear_arith)
        requires
            wt.u >= 0,
            lo <= c <= hi,
    ;
    assert(wt.w * lo + wt.v * lo + wt.u * lo == d * lo) by (nonlinear_arith)
        requires
            wt.w + wt.v + wt.u == d,
    ;
    assert(wt.w * hi + wt.v * hi + wt.u * hi == d * hi) by (nonlinear_arith)
        requires
            wt.w + wt.v + wt.u == d,
    ;
    assert(lo <= p <= hi) by (nonlinear_arith)
        requires
            d > 0,
            d * lo <= d * p <= d * hi,
    ;
}

/// The weights are those of the dot-product solution. With `e0 = c - a`,
/// `e1 = b - a` and `e2 = p - a`, the system
/// `u * (e0.e0) + v * (e0.e1) = e0.e2`, `u * (e0.e1) + v * (e1.e1) = e1.e2`
/// has the determinant `(e0.e0) * (e1.e1) - (e0.e1)^2`, which is the square
/// of twice the area, and Cramer's numerators over it are the fractions
/// `u / denom` and `v / denom` of `weights`.
pub proof fn law_weights_solve_dot_system(
    px: int,
    py: int,
    a: ScreenPoint,
    b: ScreenPoint,
    c: ScreenPoint,
)
    ensures
        ({
            let wt = weights(px, py, a, b, c);
            let d00 = dot(c.x - a.x, c.y - a.y, c.x - a.x, c.y - a.y);
            let d01 = dot(c.x - a.x, c.y - a.y, b.x - a.x, b.y - a.y);
            let d02 = dot(c.x - a.x, c.y - a.y, px - a.x, py - a.y);
            let d11 = dot(b.x - a.x, b.y - a.y, b.x - a.x, b.y - a.y);
            let d12 = dot(b.x - a.x, b.y - a.y, px - a.x, py - a.y);
            let det = d00 * d11 - d01 * d01;
            &&& det == signed_area(a, b, c) * signed_area(a, b, c)
            &&& det == wt.denom * wt.denom
            &&& (d11 * d02 - d01 * d12) * wt.denom == wt.u * det
            &&& (d00 * d12 - d01 * d02) * wt.denom == wt.v * det
            &&& wt.u * d00 + wt.v * d01 == wt.denom * d02
            &&& wt.u * d01 + wt.v * d11 == wt.denom * d12
        }),
{
    let e0x = c.x - a.x;
    let e0y = c.y - a.y;
    let e1x = b.x - a.x;
    let e1y = b.y - a.y;
    let e2x = px - a.x;
    let e2y = py - a.y;
    lemma_dot_system(e0x, e0y, e1x, e1y, e2x, e2y);
    let area = cross(e0x, e0y, e1x, e1y);
    let tc = cross(e2x, e2y, e1x, e1y);
    let tb = cross(e0x, e0y, e2x, e2y);
    let d00 = dot(e0x, e0y, e0x, e0y);
    let d01 = dot(e0x, e0y, e1x, e1y);
    let d02 = dot(e0x, e0y, e2x, e2y);
    let d11 = dot(e1x, e1y, e1x, e1y);
    let d12 = dot(e1x, e1y, e2x, e2y);
    let det = d00 * d11 - d01 * d01;
    let wt = weights(px, py, a, b, c);
    if area < 0 {
        assert(wt.denom == -area && wt.u == -tc && wt.v == -tb);
        assert(wt.denom * wt.denom == area * area) by (nonlinear_arith)
            requires
                wt.denom == -area,
        ;
        assert((area * tc) * wt.denom == wt.u * (area * area)) by (nonlinear_arith)
            requires
                wt.denom == -area,
                wt.u == -tc,
        ;
        assert((area * tb) * wt.denom == wt.v * (area * area)) by (nonlinear_arith)
            requires
                wt.denom == -area,
                wt.v == -tb,
        ;
        assert(wt.u * d00 + wt.v * d01 == wt.denom * d02) by (nonlinear_arith)
            requires
                tc * d00 + tb * d01 == area * d02,
                wt.denom == -area,
                wt.u == -tc,
                wt.v == -tb,
        ;
        assert(wt.u * d01 + wt.v * d11 == wt.denom * d12) by (nonlinear_arith)
            requires
                tc * d01 + tb * d11 == area * d12,
                wt.denom == -area,
                wt.u == -tc,
                wt.v == -tb,
        ;
    } else {
        assert(wt.denom == area && wt.u == tc && wt.v == tb);
        assert((area * tc) * area == tc * (area * area)) by (nonlinear_arith);
        assert((area * tb) * area == tb * (area * area)) by (nonlinear_arith);
    }
    assert(det == area * area);
    assert(d11 * d02 - d01 * d12 == area * tc);
    assert(d00 * d12 - d01 * d02 == area * tb);
}

/// The dot-product system in plain coordinates.
proof fn lemma_dot_system(e0x: int, e0y: int, e1x: int, e1y: int, e2x: int, e2y: int)
    ensures
        ({
            let area = cross(e0x, e0y, e1x, e1y);
            let tc = cross(e2x, e2y, e1x, e1y);
            let tb = cross(e0x, e0y, e2x, e2y);
            let d00 = dot(e0x, e0y, e0x, e0y);
            let d01 = dot(e0x, e0y, e1x, e1y);
            let d02 = dot(e0x, e0y, e2x, e2y);
            let d11 = dot(e1x, e1y, e1x, e1y);
            let d12 = dot(e1x, e1y, e2x, e2y);
            &&& d00 * d11 - d01 * d01 == area * area
            &&& d11 * d02 - d01 * d12 == area * tc
            &&& d00 * d12 - d01 * d02 == area * tb
            &&& tc * d00 + tb * d01 == area * d02
            &&& tc * d01 + tb * d11 == area * d12
        }),
{
    let area = cross(e0x, e0y, e1x, e1y);
    let tc = cross(e2x, e2y, e1x, e1y);
    let tb = cross(e0x, e0y, e2x, e2y);
    let d00 = dot(e0x, e0y, e0x, e0y);
    let d01 = dot(e0x, e0y, e1x, e1y);
    let d02 = dot(e0x, e0y, e2x, e2y);
    let d11 = dot(e1x, e1y, e1x, e1y);
    let d12 = dot(e1x, e1y, e2x, e2y);
    lemma_binet_cauchy(e0x, e0y, e1x, e1y, e0x, e0y, e1x, e1y);
    assert(d01 == dot(e1x, e1y, e0x, e0y)) by (nonlinear_arith)
        requires
            d01 == e0x * e1x + e0y * e1y,
            dot(e1x, e1y, e0x, e0y) == e1x * e0x + e1y * e0y,
    ;
    lemma_binet_cauchy(e1x, e1y, e0x, e0y, e1x, e1y, e2x, e2y);
    let back = cross(e1x, e1y, e0x, e0y);
    let flip = cross(e1x, e1y, e2x, e2y);
    assert(back == -area) by (nonlinear_arith)
        requires
            back == e1x * e0y - e1y * e0x,
            area == e0x * e1y - e0y * e1x,
    ;
    assert(flip == -tc) by (nonlinear_arith)
        requires
            flip == e1x * e2y - e1y * e2x,
            tc == e2x * e1y - e2y * e1x,
    ;
    assert(back * flip == area * tc) by (nonlinear_arith)
        requires
            back == -area,
            flip == -tc,
    ;
    assert(d11 * d02 - d12 * d01 == d11 * d02 - d01 * d12) by (nonlinear_arith);
    lemma_binet_cauchy(e0x, e0y, e1x, e1y, e0x, e0y, e2x, e2y);
    assert(d00 * d12 - d02 * d01 == d00 * d12 - d01 * d02) by (nonlinear_arith);
    lemma_decompose(e0x, e0y, e1x, e1y, e2x, e2y);
    lemma_dot_scaled(area, e0x, e0y, e2x, e2y);
    lemma_dot_combined(tc, tb, e0x, e0y, e0x, e0y, e1x, e1y);
    lemma_dot_scaled(area, e1x, e1y, e2x, e2y);
    lemma_dot_combined(tc, tb, e1x, e1y, e0x, e0y, e1x, e1y);
    assert(dot(e1x, e1y, e0x, e0y) == d01);
}

/// A scalar moves into the second factor of a dot product.
proof fn lemma_dot_scaled(k: int, ax: int, ay: int, bx: int, by: int)
    ensures
        k * dot(ax, ay, bx, by) == ax * (k * bx) + ay * (k * by),
{
    assert(k * (ax * bx + ay * by) == k * (ax * bx) + k * (ay * by)) by (nonlinear_arith);
    assert(k * (ax * bx) == ax * (k * bx)) by (nonlinear_arith);
    assert(k * (ay * by) == ay * (k * by)) by (nonlinear_arith);
}

/// The dot product with a combination of two vectors.
proof fn lemma_dot_combined(
    t: int,
    s: int,
    ax: int,
    ay: int,
    bx: int,
    by: int,
    cx: int,
    cy: int,
)
    ensures
        ax * (t * bx + s * cx) + ay * (t * by + s * cy) == t * dot(ax, ay, bx, by) + s * dot(
            ax,
            ay,
            cx,
            cy,
        ),
{
    assert(ax * (t * bx + s * cx) == ax * (t * bx) + ax * (s * cx)) by (nonlinear_arith);
    assert(ay * (t * by + s * cy) == ay * (t * by) + ay * (s * cy)) by (nonlinear_arith);
    assert(ax * (t * bx) == t * (ax * bx)) by (nonlinear_arith);
    assert(ax * (s * cx) == s * (ax * cx)) by (nonlinear_arith);
    assert(ay * (t * by) == t * (ay * by)) by (nonlinear_arith);
    assert(ay * (s * cy) == s * (ay * cy)) by (nonlinear_arith);
    assert(t * (ax * bx + ay * by) == t * (ax * bx) + t * (ay * by)) by (nonlinear_arith);
    assert(s * (ax * cx + ay * cy) == s * (ax * cx) + s * (ay * cy)) by (nonlinear_arith);
}

/// A product of four factors may be regrouped.
proof fn lemma_regroup(a: int, b: int, c: int, d: int)
    ensures
        (a * b) * (c * d) == (a * c) * (b * d),
        (a * b) * (c * d) == (a * d) * (b * c),
        (a * b) * (c * d) == (a * d) * (c * b),
        (a * b) * (c * d) == (c * a) * (b * d),
{
    assert((a * b) * (c * d) == (a * c) * (b * d)) by (nonlinear_arith);
    assert((a * b) * (c * d) == (a * d) * (b * c)) by (nonlinear_arith);
    assert((a * b) * (c * d) == (a * d) * (c * b)) by (nonlinear_arith);
    assert((a * b) * (c * d) == (c * a) * (b * d)) by (nonlinear_arith);
}

/// The identity of Binet and Cauchy in the plane:
/// `(a.c)(b.d) - (a.d)(b.c) = (a x b)(c x d)`.
proof fn lemma_binet_cauchy(
    ax: int,
    ay: int,
    bx: int,
    by: int,
    cx: int,
    cy: int,
    dx: int,
    dy: int,
)
    ensures
        dot(ax, ay, cx, cy) * dot(bx, by, dx, dy) - dot(ax, ay, dx, dy) * dot(bx, by, cx, cy)
            == cross(ax, ay, bx, by) * cross(cx, cy, dx, dy),
{
    let p = ax * cx;
    let q = ay * cy;
    let r = bx * dx;
    let s = by * dy;
    let t = ax * dx;
    let u = ay * dy;
    let v = bx * cx;
    let w = by * cy;
    let m1 = ax * by;
    let m2 = ay * bx;
    let n1 = cx * dy;
    let n2 = cy * dx;
    assert((p + q) * (r + s) == p * r + p * s + q * r + q * s) by (nonlinear_arith);
    assert((t + u) * (v + w) == t * v + t * w + u * v + u * w) by (nonlinear_arith);
    assert((m1 - m2) * (n1 - n2) == m1 * n1 - m1 * n2 - m2 * n1 + m2 * n2) by (nonlinear_arith);
    // p r = (ax cx)(bx dx) = (ax dx)(bx cx) = t v
    lemma_regroup(ax, cx, bx, dx);
    assert(p * r == t * v) by (nonlinear_arith)
        requires
            (ax * cx) * (bx * dx) == (ax * dx) * (cx * bx),
            p == ax * cx,
            r == bx * dx,
            t == ax * dx,
            v == bx * cx,
    ;
    // q s = (ay cy)(by dy) = (ay dy)(by cy) = u w
    lemma_regroup(ay, cy, by, dy);
    assert(q * s == u * w) by (nonlinear_arith)
        requires
            (ay * cy) * (by * dy) == (ay * dy) * (cy * by),
            q == ay * cy,
            s == by * dy,
            u == ay * dy,
            w == by * cy,
    ;
    // p s = (ax cx)(by dy) = (ax by)(cx dy) = m1 n1
    lemma_regroup(ax, cx, by, dy);
    assert(p * s == m1 * n1) by (nonlinear_arith)
        requires
            (ax * cx) * (by * dy) == (ax * by) * (cx * dy),
            p == ax * cx,
            s == by * dy,
            m1 == ax * by,
            n1 == cx * dy,
    ;
    // q r = (ay cy)(bx dx) = (ay bx)(cy dx) = m2 n2
    lemma_regroup(ay, cy, bx, dx);
    assert(q * r == m2 * n2) by (nonlinear_arith)
        requires
            (ay * cy) * (bx * dx) == (ay * bx) * (cy * dx),
            q == ay * cy,
            r == bx * dx,
            m2 == ay * bx,
            n2 == cy * dx,
    ;
    // t w = (ax dx)(by cy) = (ax by)(cy dx) = m1 n2
    lemma_regroup(ax, dx, by, cy);
    assert(t * w == m1 * n2) by (nonlinear_arith)
        requires
            (ax * dx) * (by * cy) == (ax * by) * (dx * cy),
            t == ax * dx,
            w == by * cy,
            m1 == ax * by,
            n2 == cy * dx,
    ;
    // u v = (ay dy)(bx cx) = (ay bx)(cx dy) = m2 n1
    lemma_regroup(ay, dy, bx, cx);
    assert(u * v == m2 * n1) by (nonlinear_arith)
        requires
            (ay * dy) * (bx * cx) == (ay * bx) * (dy * cx),
            u == ay * dy,
            v == bx * cx,
            m2 == ay * bx,
            n1 == cx * dy,
    ;
}

/// A vector of the plane written over two others: with `area = e0 x e1`,
/// `area * e2 = (e2 x e1) * e0 + (e0 x e2) * e1`.
proof fn lemma_decompose(e0x: int, e0y: int, e1x: int, e1y: int, e2x: int, e2y: int)
    ensures
        cross(e0x, e0y, e1x, e1y) * e2x == cross(e2x, e2y, e1x, e1y) * e0x + cross(
            e0x,
            e0y,
            e2x,
            e2y,
        ) * e1x,
        cross(e0x, e0y, e1x, e1y) * e2y == cross(e2x, e2y, e1x, e1y) * e0y + cross(
            e0x,
            e0y,
            e2x,
            e2y,
        ) * e1y,
{
    assert((e0x * e1y - e0y * e1x) * e2x == (e0x * e1y) * e2x - (e0y * e1x) * e2x)
        by (nonlinear_arith);
    assert((e2x * e1y - e2y * e1x) * e0x == (e2x * e1y) * e0x - (e2y * e1x) * e0x)
        by (nonlinear_arith);
    assert((e0x * e2y - e0y * e2x) * e1x == (e0x * e2y) * e1x - (e0y * e2x) * e1x)
        by (nonlinear_arith);
    assert((e0x * e1y) * e2x == (e2x * e1y) * e0x) by (nonlinear_arith);
    assert((e2y * e1x) * e0x == (e0x * e2y) * e1x) by (nonlinear_arith);
    assert((e0y * e1x) * e2x == (e0y * e2x) * e1x) by (nonlinear_arith);

    assert((e0x * e1y - e0y * e1x) * e2y == (e0x * e1y) * e2y - (e0y * e1x) * e2y)
        by (nonlinear_arith);
    assert((e2x * e1y - e2y * e1x) * e0y == (e2x * e1y) * e0y - (e2y * e1x) * e0y)
        by (nonlinear_arith);
    assert((e0x * e2y - e0y * e2x) * e1y == (e0x * e2y) * e1y - (e0y * e2x) * e1y)
        by (nonlinear_arith);
    assert((e0x * e1y) * e2y == (e0x * e2y) * e1y) by (nonlinear_arith);
    assert((e0y * e1x) * e2y == (e2y * e1x) * e0y) by (nonlinear_arith);
    assert((e2x * e1y) * e0y == (e0y * e2x) * e1y) by (nonlinear_arith);
}

impl Weights {
    /// The value at the point of a quantity that is `t0` at `a`, `t1` at `b`
    /// and `t2` at `c`, rounded toward zero.
    pub open spec fn blend(self, t0: int, t1: int, t2: int) -> int {
        trunc_div(self.w * t0 + self.v * t1 + self.u * t2, self.denom)
    }

    /// The color at the point, channel by channel.
    pub open spec fn blend_color(self, c0: Color, c1: Color, c2: Color) -> Color {
        Color {
            r: self.blend(c0.r as int, c1.r as int, c2.r as int) as u8,
            g: self.blend(c0.g as int, c1.g as int, c2.g as int) as u8,
            b: self.blend(c0.b as int, c1.b as int, c2.b as int) as u8,
        }
    }
}

/// Inside the triangle a blended quantity stays between the least and the
/// greatest of its three corner values.
pub proof fn lemma_blend_between(wt: Weights, t0: int, t1: int, t2: int, lo: int, hi: int)
    requires
        wt.wf(),
        wt.is_inside(),
        lo <= t0 <= hi,
        lo <= t1 <= hi,
        lo <= t2 <= hi,
    ensures
        lo <= wt.blend(t0, t1, t2) <= hi,
{
    let d = wt.denom;
    let n = wt.w * t0 + wt.v * t1 + wt.u * t2;
    assert(wt.w * lo <= wt.w * t0 <= wt.w * hi) by (nonlinear_arith)
        requires
            wt.w >= 0,
            lo <= t0 <= hi,
    ;
    assert(wt.v * lo <= wt.v * t1 <= wt.v * hi) by (nonlinear_arith)
        requires
            wt.v >= 0,
            lo <= t1 <= hi,
    ;
    assert(wt.u * lo <= wt.u * t2 <= wt.u * hi) by (nonlinear_arith)
        requires
            wt.u >= 0,
            lo <= t2 <= hi,
    ;
    assert(wt.w * lo + wt.v * lo + wt.u * lo == d * lo) by (nonlinear_arith)
        requires
            wt.w + wt.v + wt.u == d,
    ;
    assert(wt.w * hi + wt.v * hi + wt.u * hi == d * hi) by (nonlinear_arith)
        requires
            wt.w + wt.v + wt.u == d,
    ;
    assert(d * lo <= n <= d * hi);
    if n >= 0 {
        lemma_div_is_ordered(d * lo, n, d);
        lemma_div_is_ordered(n, d * hi, d);
        lemma_div_multiples_vanish(lo, d);
        lemma_div_multiples_vanish(hi, d);
    } else {
        assert(d * (-hi) == -(d * hi)) by (nonlinear_arith);
        assert(d * (-lo) == -(d * lo)) by (nonlinear_arith);
        lemma_div_is_ordered(d * (-hi), -n, d);
        lemma_div_is_ordered(-n, d * (-lo), d);
        lemma_div_multiples_vanish(-lo, d);
        lemma_div_multiples_vanish(-hi, d);
    }
}

/// When the three corner values are equal, the blend is that value.
pub proof fn law_blend_keeps_constant(wt: Weights, t: int)
    requires
        wt.wf(),
        wt.is_inside(),
    ensures
        wt.blend(t, t, t) == t,
{
    lemma_blend_between(wt, t, t, t, t, t);
}

/// The weights of a point relative to a triangle with an area are well
/// formed: twice the area of a triangle with 32-bit corners is in range.
pub proof fn lemma_weights_in_range(px: int, py: int, a: ScreenPoint, b: ScreenPoint, c: ScreenPoint)
    requires
        signed_area(a, b, c) != 0,
    ensures
        weights(px, py, a, b, c).wf(),
{
    lemma_product_small(c.x - a.x, b.y - a.y);
    lemma_product_small(c.y - a.y, b.x - a.x);
}

/// Barycentric weights as machine integers.
#[derive(Debug, Clone, Copy)]
pub struct Barycentric {
    pub w: i128,
    pub v: i128,
    pub u: i128,
    pub denom: i128,
}

impl View for Barycentric {
    type V = Weights;

    open spec fn view(&self) -> Weights {
        Weights { w: self.w as int, v: self.v as int, u: self.u as int, denom: self.denom as int }
    }
}

/// The cross product of two differences of 32-bit coordinates.
fn cross_wide(ax: i64, ay: i64, bx: i64, by: i64) -> (r: i128)
    requires
        -0x1_0000_0000 < ax < 0x1_0000_0000,
        -0x1_0000_0000 < ay < 0x1_0000_0000,
        -0x1_0000_0000 < bx < 0x1_0000_0000,
        -0x1_0000_0000 < by < 0x1_0000_0000,
    ensures
        r == cross(ax as int, ay as int, bx as int, by as int),
        -MAX_DENOM <= r <= MAX_DENOM,
{
    proof {
        lemma_product_small(ax as int, by as int);
        lemma_product_small(ay as int, bx as int);
    }
    let left: i128 = (ax as i128) * (by as i128);
    let right: i128 = (ay as i128) * (bx as i128);
    left - right
}

/// The barycentric weights of `p` relative to the triangle `a`, `b`, `c`,
/// all four taken on the screen: depths play no part. A degenerate triangle
/// has no weights.
pub fn barycentric_coordinates(
    p: &ScreenPoint,
    a: &ScreenPoint,
    b: &ScreenPoint,
    c: &ScreenPoint,
) -> (bary: Option<Barycentric>)
    ensures
        bary.is_none() <==> signed_area(*a, *b, *c) == 0,
        bary matches Some(found) ==> found@ == weights(p.x as int, p.y as int, *a, *b, *c)
            && found@.wf(),
{
    let e0x: i64 = c.x as i64 - a.x as i64;
    let e0y: i64 = c.y as i64 - a.y as i64;
    let e1x: i64 = b.x as i64 - a.x as i64;
    let e1y: i64 = b.y as i64 - a.y as i64;
    let e2x: i64 = p.x as i64 - a.x as i64;
    let e2y: i64 = p.y as i64 - a.y as i64;
    let area = cross_wide(e0x, e0y, e1x, e1y);
    if area == 0 {
        return None;
    }
    let toward_c = cross_wide(e2x, e2y, e1x, e1y);
    let toward_b = cross_wide(e0x, e0y, e2x, e2y);
    if area < 0 {
        Some(
            Barycentric {
                w: toward_c + toward_b - area,
                v: -toward_b,
                u: -toward_c,
                denom: -area,
            },
        )
    } else {
        Some(
            Barycentric {
                w: area - toward_c - toward_b,
                v: toward_b,
                u: toward_c,
                denom: area,
            },
        )
    }
}

/// Whether the triangle `a`, `b`, `c` has no area on the screen.
pub fn is_degenerate(a: &ScreenPoint, b: &ScreenPoint, c: &ScreenPoint) -> (flat: bool)
    ensures
        flat == (signed_area(*a, *b, *c) == 0),
{
    let e0x: i64 = c.x as i64 - a.x as i64;
    let e0y: i64 = c.y as i64 - a.y as i64;
    let e1x: i64 = b.x as i64 - a.x as i64;
    let e1y: i64 = b.y as i64 - a.y as i64;
    cross_wide(e0x, e0y, e1x, e1y) == 0
}

/// Whether the weights are those of a point in the triangle, edges and
/// corners included.
pub fn is_inside_triangle(bary: &Barycentric) -> (inside: bool)
    ensures
        inside == bary@.is_inside(),
{
    bary.w >= 0 && bary.v >= 0 && bary.u >= 0
}

/// One weighted sum over the denominator, rounded toward zero.
fn blend_exec(bary: &Barycentric, t0: i32, t1: i32, t2: i32) -> (r: i128)
    requires
        bary@.wf(),
        bary@.is_inside(),
    ensures
        r == bary@.blend(t0 as int, t1 as int, t2 as int),
{
    proof {
        lemma_term_bound(bary.w as int, bary.denom as int, t0 as int);
        lemma_term_bound(bary.v as int, bary.denom as int, t1 as int);
        lemma_term_bound(bary.u as int, bary.denom as int, t2 as int);
    }
    let sum: i128 = bary.w * (t0 as i128) + bary.v * (t1 as i128) + bary.u * (t2 as i128);
    sum / bary.denom
}

proof fn lemma_term_bound(w: int, d: int, t: int)
    requires
        0 <= w <= d <= MAX_DENOM,
        -0x8000_0000 <= t < 0x8000_0000,
    ensures
        -0x1_0000_0000_0000_0000_0000_0000 <= w * t <= 0x1_0000_0000_0000_0000_0000_0000,
{
    assert(-0x1_0000_0000_0000_0000_0000_0000 <= w * t <= 0x1_0000_0000_0000_0000_0000_0000)
        by (nonlinear_arith)
        requires
            0 <= w <= 0x2_0000_0000_0000_0000,
            -0x8000_0000 <= t < 0x8000_0000,
    ;
}

/// The depth at a point of the triangle whose corners lie at depths `z0`,
/// `z1` and `z2`.
pub fn interpolate_depth(bary: &Barycentric, z0: i32, z1: i32, z2: i32) -> (z: i32)
    requires
        bary@.wf(),
        bary@.is_inside(),
    ensures
        z == bary@.blend(z0 as int, z1 as int, z2 as int),
{
    proof {
        lemma_blend_between(
            bary@,
            z0 as int,
            z1 as int,
            z2 as int,
            -0x8000_0000,
            0x7fff_ffff,
        );
    }
    blend_exec(bary, z0, z1, z2) as i32
}

/// The color at a point of the triangle whose corners have the colors `c0`,
/// `c1` and `c2`: each channel is blended by itself and rounded down.
pub fn interpolate_color(bary: &Barycentric, c0: Color, c1: Color, c2: Color) -> (color: Color)
    requires
        bary@.wf(),
        bary@.is_inside(),
    ensures
        color == bary@.blend_color(c0, c1, c2),
{
    proof {
        lemma_blend_between(bary@, c0.r as int, c1.r as int, c2.r as int, 0, 255);
        lemma_blend_between(bary@, c0.g as int, c1.g as int, c2.g as int, 0, 255);
        lemma_blend_between(bary@, c0.b as int, c1.b as int, c2.b as int, 0, 255);
    }
    let r = blend_exec(bary, c0.r as i32, c1.r as i32, c2.r as i32) as u8;
    let g = blend_exec(bary, c0.g as i32, c1.g as i32, c2.g as i32) as u8;
    let b = blend_exec(bary, c0.b as i32, c1.b as i32, c2.b as i32) as u8;
    Color::new(r, g, b)
}

} // verus!
