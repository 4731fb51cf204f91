use vstd::prelude::*;
use vstd::arithmetic::div_mod::lemma_fundamental_div_mod_converse;
use crate::color::Color;
use crate::framebuffer::Framebuffer;
use crate::framebuffer::FramebufferView;
use crate::framebuffer::lemma_index_in_range;
use crate::framebuffer::lemma_index_unique;
use crate::framebuffer::lemma_same_pixels_equal;

verus! {

pub open spec fn abs_diff(a: int, b: int) -> int {
    if a < b {
        b - a
    } else {
        a - b
    }
}

/// A line is steep when it covers more rows than columns. A steep line is
/// walked along `y`, any other line along `x`.
pub open spec fn line_is_steep(x0: int, y0: int, x1: int, y1: int) -> bool {
    abs_diff(y1, y0) > abs_diff(x1, x0)
}

/// The two endpoints as `(major0, minor0, major1, minor1)`: the major axis
/// is the one the line is walked along, and the endpoint with the smaller
/// major coordinate comes first.
pub open spec fn line_ends(x0: int, y0: int, x1: int, y1: int) -> (int, int, int, int) {
    let (a0, b0, a1, b1) = if line_is_steep(x0, y0, x1, y1) {
        (y0, x0, y1, x1)
    } else {
        (x0, y0, x1, y1)
    };
    if a0 > a1 {
        (a1, b1, a0, b0)
    } else {
        (a0, b0, a1, b1)
    }
}

/// The length of the line along its major axis. The line has one pixel more
/// than this.
pub open spec fn line_len(x0: int, y0: int, x1: int, y1: int) -> int {
    let (a0, b0, a1, b1) = line_ends(x0, y0, x1, y1);
    a1 - a0
}

/// How many unit steps the line has taken along its minor axis when it has
/// taken `k` along the major one: `k * dy / dx` rounded to the nearest
/// integer, a half rounded down.
pub open spec fn line_rise(k: int, dx: int, dy: int) -> int {
    if dx > 0 {
        (k * dy + dx - 1 - dx / 2) / dx
    } else {
        0
    }
}

/// The `k`-th pixel of the line, as `(x, y)`, for `0 <= k <= line_len`.
pub open spec fn line_pixel(x0: int, y0: int, x1: int, y1: int, k: int) -> (int, int) {
    let (a0, b0, a1, b1) = line_ends(x0, y0, x1, y1);
    let rise = line_rise(k, a1 - a0, abs_diff(b1, b0));
    let a = a0 + k;
    let b = if b0 < b1 {
        b0 + rise
    } else {
        b0 - rise
    };
    if line_is_steep(x0, y0, x1, y1) {
        (b, a)
    } else {
        (a, b)
    }
}

/// `(x, y)` is one of the first `n` pixels of the line.
pub open spec fn on_line_prefix(x0: int, y0: int, x1: int, y1: int, n: int, x: int, y: int) -> bool {
    exists|k: int| 0 <= k < n && #[trigger] line_pixel(x0, y0, x1, y1, k) == (x, y)
}

/// `(x, y)` is a pixel of the line.
pub open spec fn on_line(x0: int, y0: int, x1: int, y1: int, x: int, y: int) -> bool {
    on_line_prefix(x0, y0, x1, y1, line_len(x0, y0, x1, y1) + 1, x, y)
}

impl FramebufferView {
    /// The buffer after the line's pixels were given `color`. Depths stay.
    pub open spec fn with_line(self, x0: int, y0: int, x1: int, y1: int, color: Color) -> Self {
        FramebufferView {
            width: self.width,
            height: self.height,
            colors: Seq::new(
                self.colors.len(),
                |i: int|
                    if on_line(x0, y0, x1, y1, i % (self.width as int), i / (self.width as int)) {
                        color
                    } else {
                        self.colors[i]
                    },
            ),
            depths: self.depths,
        }
    }
}

/// One step of the line: the closed form of `line_rise` follows the running
/// error term. `err` is what is left of half a column after `k` steps, `rise`
/// the rows taken so far.
proof fn lemma_rise_from_error(k: int, dx: int, dy: int, rise: int, err: int)
    requires
        dx > 0,
        0 <= err < dx,
        err == dx / 2 - k * dy + rise * dx,
    ensures
        rise == line_rise(k, dx, dy),
{
    assert(k * dy + dx - 1 - dx / 2 == dx * rise + (dx - 1 - err)) by (nonlinear_arith)
        requires
            err == dx / 2 - k * dy + rise * dx,
    ;
    lemma_fundamental_div_mod_converse(k * dy + dx - 1 - dx / 2, dx, rise, dx - 1 - err);
}

/// A line never leaves the rows between its endpoints.
proof fn lemma_rise_bounded(k: int, dx: int, dy: int, rise: int, err: int)
    requires
        dx > 0,
        0 <= dy <= dx,
        0 <= k <= dx,
        0 <= err < dx,
        err == dx / 2 - k * dy + rise * dx,
    ensures
        0 <= rise <= dy,
{
    assert(rise <= dy) by (nonlinear_arith)
        requires
            dx > 0,
            0 <= dy,
            0 <= k <= dx,
            0 <= err < dx,
            0 <= dx / 2,
            err == dx / 2 - k * dy + rise * dx,
    ;
    assert(0 <= rise) by (nonlinear_arith)
        requires
            dx > 0,
            0 <= dy,
            0 <= k,
            0 <= err < dx,
            dx / 2 < dx,
            err == dx / 2 - k * dy + rise * dx,
    ;
}

impl Framebuffer {
    /// Draws the line between `(x0, y0)` and `(x1, y1)` in `color`, one pixel
    /// for each step along its longer axis. Only colors are written: depths
    /// are neither tested nor changed. Pixels outside the bounds are left
    /// out.
    pub fn draw_line(&mut self, x0: i32, y0: i32, x1: i32, y1: i32, color: Color)
        requires
            old(self)@.wf(),
        ensures
            final(self)@ == old(self)@.with_line(
                x0 as int,
                y0 as int,
                x1 as int,
                y1 as int,
                color,
            ),
            final(self)@.wf(),
    {
        let wide_x: i64 = if x1 >= x0 {
            x1 as i64 - x0 as i64
        } else {
            x0 as i64 - x1 as i64
        };
        let wide_y: i64 = if y1 >= y0 {
            y1 as i64 - y0 as i64
        } else {
            y0 as i64 - y1 as i64
        };
        let steep = wide_y > wide_x;
        let mut a0: i64 = x0 as i64;
        let mut b0: i64 = y0 as i64;
        let mut a1: i64 = x1 as i64;
        let mut b1: i64 = y1 as i64;
        if steep {
            a0 = y0 as i64;
            b0 = x0 as i64;
            a1 = y1 as i64;
            b1 = x1 as i64;
        }
        if a0 > a1 {
            let ta = a0;
            a0 = a1;
            a1 = ta;
            let tb = b0;
            b0 = b1;
            b1 = tb;
        }
        assert((a0 as int, b0 as int, a1 as int, b1 as int) == line_ends(
            x0 as int,
            y0 as int,
            x1 as int,
            y1 as int,
        ));
        let dx: i64 = a1 - a0;
        let dy: i64 = if b1 >= b0 {
            b1 - b0
        } else {
            b0 - b1
        };
        let up = b0 < b1;
        let mut err: i64 = dx / 2;
        let mut b: i64 = b0;
        let mut a: i64 = a0;
        let ghost mut rise: int = 0;
        proof {
            assert(0 * dy == 0) by (nonlinear_arith);
            assert(rise * dx == 0) by (nonlinear_arith)
                requires
                    rise == 0,
            ;
        }
        while a <= a1
            invariant
                (a0 as int, b0 as int, a1 as int, b1 as int) == line_ends(
                    x0 as int,
                    y0 as int,
                    x1 as int,
                    y1 as int,
                ),
                steep == line_is_steep(x0 as int, y0 as int, x1 as int, y1 as int),
                -0x8000_0000 <= a0 <= a1 <= 0x7fff_ffff,
                -0x8000_0000 <= b0 <= 0x7fff_ffff,
                -0x8000_0000 <= b1 <= 0x7fff_ffff,
                dx == a1 - a0,
                dy == abs_diff(b1 as int, b0 as int),
                0 <= dy <= dx,
                up == (b0 < b1),
                a0 <= a <= a1 + 1,
                0 <= rise <= a - a0,
                b == (if up {
                    b0 + rise
                } else {
                    b0 - rise
                }),
                err == dx / 2 - (a - a0) * dy + rise * dx,
                dx > 0 ==> 0 <= err < dx,
                dx == 0 ==> err == 0,
                self@.wf(),
                self@.width == old(self)@.width,
                self@.height == old(self)@.height,
                self@.depths == old(self)@.depths,
                forall|x: int, y: int|
                    old(self)@.in_bounds(x, y) ==> #[trigger] self@.color_at(x, y) == (
                    if on_line_prefix(
                        x0 as int,
                        y0 as int,
                        x1 as int,
                        y1 as int,
                        a - a0,
                        x,
                        y,
                    ) {
                        color
                    } else {
                        old(self)@.color_at(x, y)
                    }),
            decreases a1 + 1 - a,
        {
            let ghost k = a - a0;
            let ghost before = self@;
            proof {
                if dx > 0 {
                    lemma_rise_from_error(k, dx as int, dy as int, rise, err as int);
                    lemma_rise_bounded(k, dx as int, dy as int, rise, err as int);
                }
                assert(rise == line_rise(k, dx as int, dy as int));
                assert(0 <= rise <= dy);
            }
            let px: i32 = if steep {
                b as i32
            } else {
                a as i32
            };
            let py: i32 = if steep {
                a as i32
            } else {
                b as i32
            };
            assert((px as int, py as int) == line_pixel(
                x0 as int,
                y0 as int,
                x1 as int,
                y1 as int,
                k,
            ));
            self.set_pixel(px, py, color);
            proof {
                assert forall|x: int, y: int| old(self)@.in_bounds(x, y) implies #[trigger] self@.color_at(
                    x,
                    y,
                ) == (if on_line_prefix(
                    x0 as int,
                    y0 as int,
                    x1 as int,
                    y1 as int,
                    k + 1,
                    x,
                    y,
                ) {
                    color
                } else {
                    old(self)@.color_at(x, y)
                }) by {
                    lemma_pixel_after_write(
                        before,
                        px as int,
                        py as int,
                        color,
                        x,
                        y,
                    );
                    assert(before.color_at(x, y) == (if on_line_prefix(
                        x0 as int,
                        y0 as int,
                        x1 as int,
                        y1 as int,
                        k,
                        x,
                        y,
                    ) {
                        color
                    } else {
                        old(self)@.color_at(x, y)
                    }));
                    lemma_prefix_step(x0 as int, y0 as int, x1 as int, y1 as int, k, x, y);
                }
            }
            err = err - dy;
            if err < 0 {
                b = if up {
                    b + 1
                } else {
                    b - 1
                };
                err = err + dx;
                proof {
                    assert((rise + 1) * dx == rise * dx + dx) by (nonlinear_arith);
                    rise = rise + 1;
                }
            }
            proof {
                assert((k + 1) * dy == k * dy + dy) by (nonlinear_arith);
            }
            a = a + 1;
        }
        proof {
            let goal = old(self)@.with_line(x0 as int, y0 as int, x1 as int, y1 as int, color);
            assert(a - a0 == line_len(x0 as int, y0 as int, x1 as int, y1 as int) + 1);
            assert forall|x: int, y: int| self@.in_bounds(x, y) implies #[trigger] self@.color_at(
                x,
                y,
            ) == goal.color_at(x, y) by {
                lemma_index_in_range(self@.width, self@.height, x, y);
                lemma_index_unique(self@.width, x, y);
            }
            lemma_same_pixels_equal(self@, goal);
        }
    }
}

/// What a pixel holds after an unconditional write somewhere in the buffer.
pub proof fn lemma_pixel_after_write(
    v: FramebufferView,
    px: int,
    py: int,
    color: Color,
    x: int,
    y: int,
)
    requires
        v.wf(),
        v.in_bounds(x, y),
    ensures
        v.with_color(px, py, color).wf(),
        v.with_color(px, py, color).depths == v.depths,
        v.with_color(px, py, color).color_at(x, y) == (if x == px && y == py {
            color
        } else {
            v.color_at(x, y)
        }),
{
    lemma_index_in_range(v.width, v.height, x, y);
    if v.in_bounds(px, py) {
        lemma_index_in_range(v.width, v.height, px, py);
        lemma_index_unique(v.width, px, py);
        lemma_index_unique(v.width, x, y);
    }
}

/// The first `k + 1` pixels of a line are its first `k` pixels and the
/// `k`-th.
proof fn lemma_prefix_step(x0: int, y0: int, x1: int, y1: int, k: int, x: int, y: int)
    requires
        0 <= k,
    ensures
        on_line_prefix(x0, y0, x1, y1, k + 1, x, y) == (on_line_prefix(x0, y0, x1, y1, k, x, y)
            || line_pixel(x0, y0, x1, y1, k) == (x, y)),
{
    if on_line_prefix(x0, y0, x1, y1, k + 1, x, y) {
        let j = choose|j: int| 0 <= j < k + 1 && #[trigger] line_pixel(x0, y0, x1, y1, j) == (x, y);
        if j < k {
            assert(on_line_prefix(x0, y0, x1, y1, k, x, y));
        }
    }
    if on_line_prefix(x0, y0, x1, y1, k, x, y) {
        let j = choose|j: int| 0 <= j < k && #[trigger] line_pixel(x0, y0, x1, y1, j) == (x, y);
        assert(0 <= j < k + 1);
    }
    if line_pixel(x0, y0, x1, y1, k) == (x, y) {
        assert(0 <= k < k + 1);
    }
}

/// A line does not depend on the order of its endpoints: drawn from either
/// end it has the same pixels, one by one.
pub proof fn law_line_directionless(x0: int, y0: int, x1: int, y1: int, k: int, x: int, y: int)
    ensures
        line_len(x0, y0, x1, y1) == line_len(x1, y1, x0, y0),
        line_pixel(x0, y0, x1, y1, k) == line_pixel(x1, y1, x0, y0, k),
        on_line(x0, y0, x1, y1, x, y) == on_line(x1, y1, x0, y0, x, y),
{
    assert(line_ends(x0, y0, x1, y1) == line_ends(x1, y1, x0, y0));
    assert(line_len(x0, y0, x1, y1) == line_len(x1, y1, x0, y0));
    let n = line_len(x0, y0, x1, y1) + 1;
    assert forall|j: int| line_pixel(x0, y0, x1, y1, j) == line_pixel(x1, y1, x0, y0, j) by {
        assert(line_ends(x0, y0, x1, y1) == line_ends(x1, y1, x0, y0));
    }
    if on_line(x0, y0, x1, y1, x, y) {
        let j = choose|j: int| 0 <= j < n && #[trigger] line_pixel(x0, y0, x1, y1, j) == (x, y);
        assert(line_pixel(x1, y1, x0, y0, j) == (x, y));
    }
    if on_line(x1, y1, x0, y0, x, y) {
        let j = choose|j: int| 0 <= j < n && #[trigger] line_pixel(x1, y1, x0, y0, j) == (x, y);
        assert(line_pixel(x0, y0, x1, y1, j) == (x, y));
    }
}

/// A line starts at one of its endpoints and ends at the other.
pub proof fn law_line_joins_endpoints(x0: int, y0: int, x1: int, y1: int)
    ensures
        on_line(x0, y0, x1, y1, x0, y0),
        on_line(x0, y0, x1, y1, x1, y1),
{
    let (a0, b0, a1, b1) = line_ends(x0, y0, x1, y1);
    let dx = a1 - a0;
    let dy = abs_diff(b1, b0);
    assert(dy <= dx);
    assert(line_rise(0, dx, dy) == 0) by {
        if dx > 0 {
            assert(0 * dy == 0);
            lemma_fundamental_div_mod_converse(dx - 1 - dx / 2, dx, 0, dx - 1 - dx / 2);
        }
    }
    assert(line_rise(dx, dx, dy) == dy) by {
        if dx > 0 {
            assert(dx * dy + dx - 1 - dx / 2 == dx * dy + (dx - 1 - dx / 2));
            lemma_fundamental_div_mod_converse(
                dx * dy + dx - 1 - dx / 2,
                dx,
                dy,
                dx - 1 - dx / 2,
            );
        }
    }
    let first = line_pixel(x0, y0, x1, y1, 0);
    let last = line_pixel(x0, y0, x1, y1, dx);
    assert(0 <= dx);
    assert((first == (x0, y0) && last == (x1, y1)) || (first == (x1, y1) && last == (x0, y0)));
}

} // verus!
