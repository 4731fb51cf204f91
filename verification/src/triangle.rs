use vstd::prelude::*;
use crate::barycentric::barycentric_coordinates;
use crate::barycentric::interpolate_color;
use crate::barycentric::interpolate_depth;
use crate::barycentric::is_degenerate;
use crate::barycentric::is_inside_triangle;
use crate::barycentric::lemma_blend_between;
use crate::barycentric::law_weights_sum_to_one;
use crate::barycentric::lemma_inside_within_box;
use crate::barycentric::lemma_weights_in_range;
use crate::barycentric::signed_area;
use crate::barycentric::weights;
use crate::color::Color;
use crate::depth_test::Fragment;
use crate::depth_test::lemma_fragment_effect;
use crate::fixed::DEPTH_ONE;
use crate::fixed::HALF_PIXEL;
use crate::fixed::SUBPIXEL;
use crate::fixed::trunc_div;
use crate::framebuffer::Framebuffer;
use crate::framebuffer::FramebufferView;
use crate::framebuffer::lemma_index_in_range;
use crate::framebuffer::lemma_index_unique;
use crate::framebuffer::lemma_same_pixels_equal;
use crate::point::ScreenPoint;

verus! {

/// A corner of a triangle on the screen: a projected point and its color.
#[derive(Debug, Clone, Copy)]
pub struct Vertex3D {
    pub position: ScreenPoint,
    pub color: Color,
}

impl Vertex3D {
    pub fn new(position: ScreenPoint, color: Color) -> (v: Self)
        ensures
            v == (Vertex3D { position, color }),
    {
        Self { position, color }
    }
}

/// The center of the pixel with index `i` along one axis, in sub-pixel
/// units.
pub open spec fn pixel_center(i: int) -> int {
    i * SUBPIXEL + HALF_PIXEL
}

/// The pixel that holds the coordinate `c`: `c` in whole pixels, rounded
/// toward zero.
pub open spec fn pixel_of(c: int) -> int {
    trunc_div(c, SUBPIXEL as int)
}

/// A normalized depth between the near and the far plane.
pub open spec fn depth_in_range(z: i32) -> bool {
    -DEPTH_ONE <= z <= DEPTH_ONE
}

/// A triangle is filled only if it has an area on the screen and its three
/// corners lie between the near and the far plane.
pub open spec fn is_drawable(v0: Vertex3D, v1: Vertex3D, v2: Vertex3D) -> bool {
    &&& signed_area(v0.position, v1.position, v2.position) != 0
    &&& depth_in_range(v0.position.z)
    &&& depth_in_range(v1.position.z)
    &&& depth_in_range(v2.position.z)
}

/// What the triangle offers to pixel `(x, y)`: where the pixel's center lies
/// in the triangle, edges included, the depth and the color blended from the
/// three corners; nothing elsewhere, and nothing at all if the triangle is
/// not drawable.
pub open spec fn fragment_at(v0: Vertex3D, v1: Vertex3D, v2: Vertex3D, x: int, y: int) -> Option<
    Fragment,
> {
    let wt = weights(pixel_center(x), pixel_center(y), v0.position, v1.position, v2.position);
    if is_drawable(v0, v1, v2) && wt.is_inside() {
        Some(
            Fragment {
                z: wt.blend(v0.position.z as int, v1.position.z as int, v2.position.z as int) as i32,
                color: wt.blend_color(v0.color, v1.color, v2.color),
            },
        )
    } else {
        None
    }
}

impl FramebufferView {
    /// The color of pixel `(x, y)` after the triangle was filled.
    pub open spec fn shaded_color(
        self,
        v0: Vertex3D,
        v1: Vertex3D,
        v2: Vertex3D,
        x: int,
        y: int,
    ) -> Color {
        match fragment_at(v0, v1, v2, x, y) {
            Some(f) => if f.z < self.depth_at(x, y) {
                f.color
            } else {
                self.color_at(x, y)
            },
            None => self.color_at(x, y),
        }
    }

    /// The depth of pixel `(x, y)` after the triangle was filled.
    pub open spec fn shaded_depth(
        self,
        v0: Vertex3D,
        v1: Vertex3D,
        v2: Vertex3D,
        x: int,
        y: int,
    ) -> i32 {
        match fragment_at(v0, v1, v2, x, y) {
            Some(f) => if f.z < self.depth_at(x, y) {
                f.z
            } else {
                self.depth_at(x, y)
            },
            None => self.depth_at(x, y),
        }
    }

    /// The buffer after the triangle was filled: every pixel was offered the
    /// triangle's fragment for it, if there is one, under the depth test.
    pub open spec fn with_triangle(self, v0: Vertex3D, v1: Vertex3D, v2: Vertex3D) -> Self {
        FramebufferView {
            width: self.width,
            height: self.height,
            colors: Seq::new(
                self.colors.len(),
                |i: int|
                    self.shaded_color(v0, v1, v2, i % (self.width as int), i / (self.width as int)),
            ),
            depths: Seq::new(
                self.depths.len(),
                |i: int|
                    self.shaded_depth(v0, v1, v2, i % (self.width as int), i / (self.width as int)),
            ),
        }
    }
}

/// Filling a triangle is the depth test at every pixel. A pixel that the
/// triangle has a fragment for ends as if that fragment alone had been
/// offered to it; a pixel without one keeps what it had. No depth grows, and
/// a fragment's depth lies in the depth range.
pub proof fn law_fill_is_depth_tested(
    v: FramebufferView,
    v0: Vertex3D,
    v1: Vertex3D,
    v2: Vertex3D,
    x: int,
    y: int,
)
    requires
        v.wf(),
        v.in_bounds(x, y),
    ensures
        ({
            let filled = v.with_triangle(v0, v1, v2);
            &&& filled.wf()
            &&& filled.width == v.width
            &&& filled.height == v.height
            &&& filled.depth_at(x, y) <= v.depth_at(x, y)
            &&& match fragment_at(v0, v1, v2, x, y) {
                Some(f) => {
                    &&& filled.color_at(x, y) == v.with_fragment(x, y, f.z, f.color).color_at(x, y)
                    &&& filled.depth_at(x, y) == v.with_fragment(x, y, f.z, f.color).depth_at(x, y)
                    &&& depth_in_range(f.z)
                },
                None => {
                    &&& filled.color_at(x, y) == v.color_at(x, y)
                    &&& filled.depth_at(x, y) == v.depth_at(x, y)
                },
            }
        }),
{
    lemma_index_in_range(v.width, v.height, x, y);
    lemma_index_unique(v.width, x, y);
    match fragment_at(v0, v1, v2, x, y) {
        Some(f) => {
            lemma_fragment_effect(v, x, y, f.z, f.color, x, y);
            let wt = weights(
                pixel_center(x),
                pixel_center(y),
                v0.position,
                v1.position,
                v2.position,
            );
            law_weights_sum_to_one(
                pixel_center(x),
                pixel_center(y),
                v0.position,
                v1.position,
                v2.position,
            );
            lemma_weights_in_range(
                pixel_center(x),
                pixel_center(y),
                v0.position,
                v1.position,
                v2.position,
            );
            lemma_blend_between(
                wt,
                v0.position.z as int,
                v1.position.z as int,
                v2.position.z as int,
                -DEPTH_ONE as int,
                DEPTH_ONE as int,
            );
        },
        None => {},
    }
}

/// A buffer that holds at each pixel what the filled triangle leaves there
/// is the buffer after the triangle was filled.
proof fn lemma_shaded_everywhere(
    before: FramebufferView,
    after: FramebufferView,
    v0: Vertex3D,
    v1: Vertex3D,
    v2: Vertex3D,
)
    requires
        before.wf(),
        after.wf(),
        after.width == before.width,
        after.height == before.height,
        forall|x: int, y: int|
            before.in_bounds(x, y) ==> #[trigger] after.color_at(x, y) == before.shaded_color(
                v0,
                v1,
                v2,
                x,
                y,
            ),
        forall|x: int, y: int|
            before.in_bounds(x, y) ==> #[trigger] after.depth_at(x, y) == before.shaded_depth(
                v0,
                v1,
                v2,
                x,
                y,
            ),
    ensures
        after == before.with_triangle(v0, v1, v2),
{
    let goal = before.with_triangle(v0, v1, v2);
    assert forall|x: int, y: int| after.in_bounds(x, y) implies #[trigger] after.color_at(x, y)
        == goal.color_at(x, y) by {
        lemma_index_in_range(before.width, before.height, x, y);
        lemma_index_unique(before.width, x, y);
    }
    assert forall|x: int, y: int| after.in_bounds(x, y) implies #[trigger] after.depth_at(x, y)
        == goal.depth_at(x, y) by {
        lemma_index_in_range(before.width, before.height, x, y);
        lemma_index_unique(before.width, x, y);
    }
    lemma_same_pixels_equal(after, goal);
}

/// Every pixel of a buffer of `size` pixels along one axis whose center lies
/// between `lo` and `hi` is one of those from `first` to `last`.
spec fn range_holds_centers(first: int, last: int, lo: int, hi: int, size: int) -> bool {
    forall|i: int| 0 <= i < size && lo <= #[trigger] pixel_center(i) <= hi ==> first <= i <= last
}

/// The pixels along one axis whose centers lie between `lo` and `hi`, cut to
/// a buffer of `size` pixels: the range from `first` to `last`, which is
/// empty when `last < first`.
fn pixel_range(lo: i32, hi: i32, size: usize) -> (range: (i64, i64))
    ensures
        0 <= range.0,
        range.1 < size,
        range.1 < 0x80_0000,
        range.0 <= range.1 ==> pixel_center(range.1 as int) <= hi,
        range_holds_centers(range.0 as int, range.1 as int, lo as int, hi as int, size as int),
{
    let low: i64 = lo as i64 - HALF_PIXEL as i64;
    let high: i64 = hi as i64 - HALF_PIXEL as i64;
    if high < 0 || size == 0 {
        return (0, -1);
    }
    let first: i64 = if low <= 0 {
        0
    } else {
        (low + (SUBPIXEL as i64 - 1)) / (SUBPIXEL as i64)
    };
    let mut last: i64 = high / (SUBPIXEL as i64);
    if last as usize >= size {
        last = (size - 1) as i64;
    }
    (first, last)
}

fn least(a: i32, b: i32, c: i32) -> (m: i32)
    ensures
        m <= a && m <= b && m <= c,
        m == a || m == b || m == c,
{
    let ab = if a < b {
        a
    } else {
        b
    };
    if ab < c {
        ab
    } else {
        c
    }
}

fn greatest(a: i32, b: i32, c: i32) -> (m: i32)
    ensures
        m >= a && m >= b && m >= c,
        m == a || m == b || m == c,
{
    let ab = if a > b {
        a
    } else {
        b
    };
    if ab > c {
        ab
    } else {
        c
    }
}

fn depth_is_in_range(z: i32) -> (ok: bool)
    ensures
        ok == depth_in_range(z),
{
    -DEPTH_ONE <= z && z <= DEPTH_ONE
}

/// Whether pixel `(x, y)` lies in one of the rows from `y_first` up to but
/// not including `y`, or in row `y` before column `x`, within the columns
/// from `x_first` to `x_last`.
spec fn is_visited(
    x_first: int,
    x_last: int,
    y_first: int,
    row: int,
    column: int,
    x: int,
    y: int,
) -> bool {
    ||| y_first <= y < row && x_first <= x <= x_last
    ||| y == row && x_first <= x < column
}

/// Fills the triangle. Each pixel whose center lies in the triangle, edges
/// included, is offered a fragment with the depth and the color blended from
/// the three corners, and takes it if it passes the depth test. A triangle
/// without area, or with a corner outside the depth range, draws nothing.
pub fn draw_triangle_filled(
    framebuffer: &mut Framebuffer,
    v0: &Vertex3D,
    v1: &Vertex3D,
    v2: &Vertex3D,
)
    requires
        old(framebuffer)@.wf(),
    ensures
        final(framebuffer)@ == old(framebuffer)@.with_triangle(*v0, *v1, *v2),
        final(framebuffer)@.wf(),
{
    let a = v0.position;
    let b = v1.position;
    let c = v2.position;
    let ghost before = framebuffer@;
    if !depth_is_in_range(a.z) || !depth_is_in_range(b.z) || !depth_is_in_range(c.z)
        || is_degenerate(&a, &b, &c) {
        proof {
            lemma_shaded_everywhere(before, before, *v0, *v1, *v2);
        }
        return ;
    }
    let min_x = least(a.x, b.x, c.x);
    let max_x = greatest(a.x, b.x, c.x);
    let min_y = least(a.y, b.y, c.y);
    let max_y = greatest(a.y, b.y, c.y);
    let (x_first, x_last) = pixel_range(min_x, max_x, framebuffer.width());
    let (y_first, y_last) = pixel_range(min_y, max_y, framebuffer.height());
    if x_first > x_last {
        proof {
            assert forall|x: int, y: int| before.in_bounds(x, y) implies fragment_at(
                *v0,
                *v1,
                *v2,
                x,
                y,
            ).is_none() by {
                lemma_outside_box_no_fragment(
                    *v0,
                    *v1,
                    *v2,
                    x,
                    y,
                    min_x as int,
                    max_x as int,
                    min_y as int,
                    max_y as int,
                );
            }
            lemma_shaded_everywhere(before, before, *v0, *v1, *v2);
        }
        return ;
    }
    let mut y: i64 = y_first;
    while y <= y_last
        invariant
            is_drawable(*v0, *v1, *v2),
            a == v0.position,
            b == v1.position,
            c == v2.position,
            before == old(framebuffer)@,
            before.wf(),
            0 <= x_first <= x_last < before.width,
            x_last < 0x80_0000,
            pixel_center(x_last as int) <= max_x,
            0 <= y_first,
            y_last < before.height,
            y_last < 0x80_0000,
            y_first <= y_last ==> pixel_center(y_last as int) <= max_y,
            y_first <= y_last ==> y <= y_last + 1,
            y_first <= y,
            min_x <= a.x <= max_x && min_x <= b.x <= max_x && min_x <= c.x <= max_x,
            min_y <= a.y <= max_y && min_y <= b.y <= max_y && min_y <= c.y <= max_y,
            range_holds_centers(
                x_first as int,
                x_last as int,
                min_x as int,
                max_x as int,
                before.width as int,
            ),
            range_holds_centers(
                y_first as int,
                y_last as int,
                min_y as int,
                max_y as int,
                before.height as int,
            ),
            framebuffer@.wf(),
            framebuffer@.width == before.width,
            framebuffer@.height == before.height,
            forall|px: int, py: int|
                before.in_bounds(px, py) ==> #[trigger] framebuffer@.color_at(px, py) == (
                if is_visited(x_first as int, x_last as int, y_first as int, y as int, x_first as int, px, py) {
                    before.shaded_color(*v0, *v1, *v2, px, py)
                } else {
                    before.color_at(px, py)
                }),
            forall|px: int, py: int|
                before.in_bounds(px, py) ==> #[trigger] framebuffer@.depth_at(px, py) == (
                if is_visited(x_first as int, x_last as int, y_first as int, y as int, x_first as int, px, py) {
                    before.shaded_depth(*v0, *v1, *v2, px, py)
                } else {
                    before.depth_at(px, py)
                }),
        decreases y_last + 1 - y,
    {
        let mut x: i64 = x_first;
        while x <= x_last
            invariant
                is_drawable(*v0, *v1, *v2),
                a == v0.position,
                b == v1.position,
                c == v2.position,
                before == old(framebuffer)@,
                before.wf(),
                0 <= x_first <= x_last < before.width,
                x_last < 0x80_0000,
                pixel_center(x_last as int) <= max_x,
                0 <= y_first <= y <= y_last < before.height,
                y_last < 0x80_0000,
                pixel_center(y_last as int) <= max_y,
                x_first <= x <= x_last + 1,
                min_x <= a.x <= max_x && min_x <= b.x <= max_x && min_x <= c.x <= max_x,
                min_y <= a.y <= max_y && min_y <= b.y <= max_y && min_y <= c.y <= max_y,
                range_holds_centers(
                    x_first as int,
                    x_last as int,
                    min_x as int,
                    max_x as int,
                    before.width as int,
                ),
                range_holds_centers(
                    y_first as int,
                    y_last as int,
                    min_y as int,
                    max_y as int,
                    before.height as int,
                ),
                framebuffer@.wf(),
                framebuffer@.width == before.width,
                framebuffer@.height == before.height,
                forall|px: int, py: int|
                    before.in_bounds(px, py) ==> #[trigger] framebuffer@.color_at(px, py) == (
                    if is_visited(x_first as int, x_last as int, y_first as int, y as int, x as int, px, py) {
                        before.shaded_color(*v0, *v1, *v2, px, py)
                    } else {
                        before.color_at(px, py)
                    }),
                forall|px: int, py: int|
                    before.in_bounds(px, py) ==> #[trigger] framebuffer@.depth_at(px, py) == (
                    if is_visited(x_first as int, x_last as int, y_first as int, y as int, x as int, px, py) {
                        before.shaded_depth(*v0, *v1, *v2, px, py)
                    } else {
                        before.depth_at(px, py)
                    }),
            decreases x_last + 1 - x,
        {
            let ghost current = framebuffer@;
            let center = ScreenPoint {
                x: (x * (SUBPIXEL as i64) + (HALF_PIXEL as i64)) as i32,
                y: (y * (SUBPIXEL as i64) + (HALF_PIXEL as i64)) as i32,
                z: 0,
            };
            assert(center.x == pixel_center(x as int) && center.y == pixel_center(y as int));
            proof {
                assert(before.in_bounds(x as int, y as int));
                assert(!is_visited(x_first as int, x_last as int, y_first as int, y as int, x as int, x as int, y as int));
                assert(current.color_at(x as int, y as int) == before.color_at(x as int, y as int));
                assert(current.depth_at(x as int, y as int) == before.depth_at(x as int, y as int));
            }
            match barycentric_coordinates(&center, &a, &b, &c) {
                Some(bary) => {
                    if is_inside_triangle(&bary) {
                        proof {
                            lemma_blend_between(
                                bary@,
                                a.z as int,
                                b.z as int,
                                c.z as int,
                                -DEPTH_ONE as int,
                                DEPTH_ONE as int,
                            );
                        }
                        let depth = interpolate_depth(&bary, a.z, b.z, c.z);
                        let color = interpolate_color(&bary, v0.color, v1.color, v2.color);
                        assert(fragment_at(*v0, *v1, *v2, x as int, y as int) == Some(
                            Fragment { z: depth, color },
                        ));
                        framebuffer.set_pixel_with_depth(x as i32, y as i32, depth, color);
                        proof {
                            assert forall|px: int, py: int|
                                before.in_bounds(px, py) implies #[trigger] framebuffer@.color_at(
                                px,
                                py,
                            ) == (if px == x && py == y {
                                before.shaded_color(*v0, *v1, *v2, px, py)
                            } else {
                                current.color_at(px, py)
                            }) by {
                                lemma_fragment_effect(
                                    current,
                                    x as int,
                                    y as int,
                                    depth,
                                    color,
                                    px,
                                    py,
                                );
                            }
                            assert forall|px: int, py: int|
                                before.in_bounds(px, py) implies #[trigger] framebuffer@.depth_at(
                                px,
                                py,
                            ) == (if px == x && py == y {
                                before.shaded_depth(*v0, *v1, *v2, px, py)
                            } else {
                                current.depth_at(px, py)
                            }) by {
                                lemma_fragment_effect(
                                    current,
                                    x as int,
                                    y as int,
                                    depth,
                                    color,
                                    px,
                                    py,
                                );
                            }
                        }
                    } else {
                        assert(fragment_at(*v0, *v1, *v2, x as int, y as int).is_none());
                    }
                },
                None => {},
            }
            proof {
                assert forall|px: int, py: int|
                    before.in_bounds(px, py) implies #[trigger] framebuffer@.color_at(px, py) == (
                if is_visited(
                    x_first as int,
                    x_last as int,
                    y_first as int,
                    y as int,
                    x + 1,
                    px,
                    py,
                ) {
                    before.shaded_color(*v0, *v1, *v2, px, py)
                } else {
                    before.color_at(px, py)
                }) by {
                    assert(current.color_at(px, py) == (if is_visited(
                        x_first as int,
                        x_last as int,
                        y_first as int,
                        y as int,
                        x as int,
                        px,
                        py,
                    ) {
                        before.shaded_color(*v0, *v1, *v2, px, py)
                    } else {
                        before.color_at(px, py)
                    }));
                }
                assert forall|px: int, py: int|
                    before.in_bounds(px, py) implies #[trigger] framebuffer@.depth_at(px, py) == (
                if is_visited(
                    x_first as int,
                    x_last as int,
                    y_first as int,
                    y as int,
                    x + 1,
                    px,
                    py,
                ) {
                    before.shaded_depth(*v0, *v1, *v2, px, py)
                } else {
                    before.depth_at(px, py)
                }) by {
                    assert(current.depth_at(px, py) == (if is_visited(
                        x_first as int,
                        x_last as int,
                        y_first as int,
                        y as int,
                        x as int,
                        px,
                        py,
                    ) {
                        before.shaded_depth(*v0, *v1, *v2, px, py)
                    } else {
                        before.depth_at(px, py)
                    }));
                }
            }
            x = x + 1;
        }
        proof {
            assert forall|px: int, py: int|
                is_visited(x_first as int, x_last as int, y_first as int, y as int, x as int, px, py)
                == is_visited(x_first as int, x_last as int, y_first as int, y + 1, x_first as int, px, py) by {}
        }
        y = y + 1;
    }
    proof {
        let after = framebuffer@;
        assert forall|px: int, py: int|
            before.in_bounds(px, py) && !is_visited(
                x_first as int,
                x_last as int,
                y_first as int,
                y as int,
                x_first as int,
                px,
                py,
            ) implies fragment_at(*v0, *v1, *v2, px, py).is_none() by {
            lemma_outside_box_no_fragment(
                *v0,
                *v1,
                *v2,
                px,
                py,
                min_x as int,
                max_x as int,
                min_y as int,
                max_y as int,
            );
            if min_x <= pixel_center(px) <= max_x && min_y <= pixel_center(py) <= max_y {
                assert(x_first <= px <= x_last);
                assert(y_first <= py <= y_last);
            }
        }
        assert forall|px: int, py: int| before.in_bounds(px, py) implies #[trigger] after.color_at(
            px,
            py,
        ) == before.shaded_color(*v0, *v1, *v2, px, py) by {}
        assert forall|px: int, py: int| before.in_bounds(px, py) implies #[trigger] after.depth_at(
            px,
            py,
        ) == before.shaded_depth(*v0, *v1, *v2, px, py) by {}
        lemma_shaded_everywhere(before, after, *v0, *v1, *v2);
    }
}

/// A pixel whose center lies outside the triangle's bounding box gets no
/// fragment.
proof fn lemma_outside_box_no_fragment(
    v0: Vertex3D,
    v1: Vertex3D,
    v2: Vertex3D,
    x: int,
    y: int,
    lo_x: int,
    hi_x: int,
    lo_y: int,
    hi_y: int,
)
    requires
        lo_x <= v0.position.x <= hi_x,
        lo_x <= v1.position.x <= hi_x,
        lo_x <= v2.position.x <= hi_x,
        lo_y <= v0.position.y <= hi_y,
        lo_y <= v1.position.y <= hi_y,
        lo_y <= v2.position.y <= hi_y,
    ensures
        fragment_at(v0, v1, v2, x, y).is_some() ==> lo_x <= pixel_center(x) <= hi_x && lo_y
            <= pixel_center(y) <= hi_y,
{
    if fragment_at(v0, v1, v2, x, y).is_some() {
        lemma_inside_within_box(
            pixel_center(x),
            pixel_center(y),
            v0.position,
            v1.position,
            v2.position,
            lo_x,
            hi_x,
            lo_y,
            hi_y,
        );
    }
}

impl FramebufferView {
    /// The buffer after the three edges of the triangle were drawn as lines
    /// in `color`, between the pixels that hold its corners: from the first
    /// corner to the second, on to the third, and back.
    pub open spec fn with_wireframe(
        self,
        v0: Vertex3D,
        v1: Vertex3D,
        v2: Vertex3D,
        color: Color,
    ) -> Self {
        self.with_line(
            pixel_of(v0.position.x as int),
            pixel_of(v0.position.y as int),
            pixel_of(v1.position.x as int),
            pixel_of(v1.position.y as int),
            color,
        ).with_line(
            pixel_of(v1.position.x as int),
            pixel_of(v1.position.y as int),
            pixel_of(v2.position.x as int),
            pixel_of(v2.position.y as int),
            color,
        ).with_line(
            pixel_of(v2.position.x as int),
            pixel_of(v2.position.y as int),
            pixel_of(v0.position.x as int),
            pixel_of(v0.position.y as int),
            color,
        )
    }
}

/// Draws the three edges of the triangle as lines in `color`, between the
/// pixels that hold its corners. Depths are neither tested nor changed.
pub fn draw_triangle_wireframe(
    framebuffer: &mut Framebuffer,
    v0: &Vertex3D,
    v1: &Vertex3D,
    v2: &Vertex3D,
    color: Color,
)
    requires
        old(framebuffer)@.wf(),
    ensures
        final(framebuffer)@ == old(framebuffer)@.with_wireframe(*v0, *v1, *v2, color),
        final(framebuffer)@.wf(),
{
    let x0 = v0.position.x / SUBPIXEL;
    let y0 = v0.position.y / SUBPIXEL;
    let x1 = v1.position.x / SUBPIXEL;
    let y1 = v1.position.y / SUBPIXEL;
    let x2 = v2.position.x / SUBPIXEL;
    let y2 = v2.position.y / SUBPIXEL;
    framebuffer.draw_line(x0, y0, x1, y1, color);
    framebuffer.draw_line(x1, y1, x2, y2, color);
    framebuffer.draw_line(x2, y2, x0, y0, color);
}

} // verus!
