use vstd::prelude::*;
use vstd::arithmetic::div_mod::lemma_fundamental_div_mod;
use vstd::arithmetic::div_mod::lemma_fundamental_div_mod_converse;
use crate::color::Color;

verus! {

/// The depth of a pixel on which nothing has been drawn yet. No fragment can
/// be farther: every depth below it passes the depth test against it.
pub const DEPTH_INFINITY: i32 = 0x7fff_ffff;

/// The mathematical content of a framebuffer: its size and its two grids,
/// both row-major.
pub struct FramebufferView {
    pub width: nat,
    pub height: nat,
    pub colors: Seq<Color>,
    pub depths: Seq<i32>,
}

impl FramebufferView {
    /// Both grids hold exactly `width * height` cells.
    pub open spec fn wf(self) -> bool {
        &&& self.colors.len() == self.width * self.height
        &&& self.depths.len() == self.width * self.height
    }

    pub open spec fn in_bounds(self, x: int, y: int) -> bool {
        0 <= x < self.width && 0 <= y < self.height
    }

    /// The row-major position of pixel `(x, y)` in the grids.
    pub open spec fn index(self, x: int, y: int) -> int {
        y * self.width + x
    }

    pub open spec fn color_at(self, x: int, y: int) -> Color {
        self.colors[self.index(x, y)]
    }

    pub open spec fn depth_at(self, x: int, y: int) -> i32 {
        self.depths[self.index(x, y)]
    }

    /// Every cell holds `color` at depth infinity.
    pub open spec fn is_cleared(self, color: Color) -> bool {
        &&& forall|i: int| 0 <= i < self.colors.len() ==> self.colors[i] == color
        &&& forall|i: int| 0 <= i < self.depths.len() ==> self.depths[i] == DEPTH_INFINITY
    }

    /// The buffer after every cell was reset to `color` at depth infinity.
    pub open spec fn cleared(self, color: Color) -> Self {
        FramebufferView {
            width: self.width,
            height: self.height,
            colors: Seq::new(self.colors.len(), |i: int| color),
            depths: Seq::new(self.depths.len(), |i: int| DEPTH_INFINITY),
        }
    }

    /// The buffer after `color` was written at `(x, y)` with no depth test.
    /// Outside the bounds nothing changes.
    pub open spec fn with_color(self, x: int, y: int, color: Color) -> Self {
        if self.in_bounds(x, y) {
            FramebufferView {
                width: self.width,
                height: self.height,
                colors: self.colors.update(self.index(x, y), color),
                depths: self.depths,
            }
        } else {
            self
        }
    }

    /// The depth test: a fragment at depth `z` is drawn at `(x, y)` when the
    /// pixel exists and `z` is strictly nearer than what the pixel holds.
    pub open spec fn passes_depth(self, x: int, y: int, z: i32) -> bool {
        self.in_bounds(x, y) && z < self.depth_at(x, y)
    }

    /// The buffer after a fragment was offered at `(x, y)`: color and depth
    /// are replaced when it passes the depth test, nothing changes otherwise.
    pub open spec fn with_fragment(self, x: int, y: int, z: i32, color: Color) -> Self {
        if self.passes_depth(x, y, z) {
            FramebufferView {
                width: self.width,
                height: self.height,
                colors: self.colors.update(self.index(x, y), color),
                depths: self.depths.update(self.index(x, y), z),
            }
        } else {
            self
        }
    }

    /// Two buffers of one size agree at every pixel, in color and in depth.
    pub open spec fn same_pixels(self, other: Self) -> bool {
        &&& self.width == other.width
        &&& self.height == other.height
        &&& forall|x: int, y: int|
            self.in_bounds(x, y) ==> #[trigger] self.color_at(x, y) == other.color_at(x, y)
        &&& forall|x: int, y: int|
            self.in_bounds(x, y) ==> #[trigger] self.depth_at(x, y) == other.depth_at(x, y)
    }
}

/// A pixel inside the bounds has its cell inside the grids.
pub proof fn lemma_index_in_range(width: nat, height: nat, x: int, y: int)
    requires
        0 <= x < width,
        0 <= y < height,
    ensures
        0 <= y * width + x < width * height,
{
    assert(y * width + x < width * height) by (nonlinear_arith)
        requires
            0 <= x < width,
            0 <= y < height,
    ;
    assert(0 <= y * width) by (nonlinear_arith)
        requires
            0 <= y,
            0 <= width,
    ;
}

/// Distinct pixels inside the bounds have distinct cells, and each cell
/// gives its pixel back by division.
pub proof fn lemma_index_unique(width: nat, x: int, y: int)
    requires
        0 <= x < width,
    ensures
        (y * width + x) / (width as int) == y,
        (y * width + x) % (width as int) == x,
{
    let w = width as int;
    assert(y * w + x == w * y + x) by (nonlinear_arith);
    lemma_fundamental_div_mod_converse(y * w + x, w, y, x);
}

/// Every cell of the grids is the cell of one pixel inside the bounds.
pub proof fn lemma_cell_is_pixel(width: nat, height: nat, i: int)
    requires
        0 <= i < width * height,
    ensures
        0 <= i % (width as int) < width,
        0 <= i / (width as int) < height,
        (i / (width as int)) * width + i % (width as int) == i,
{
    let w = width as int;
    assert(w > 0) by (nonlinear_arith)
        requires
            0 <= i < w * height,
            w >= 0,
    ;
    lemma_fundamental_div_mod(i, w);
    let q = i / w;
    let r = i % w;
    assert(0 <= r < w);
    assert(q * w + r == i) by (nonlinear_arith)
        requires
            i == w * q + r,
    ;
    assert(0 <= q < height) by (nonlinear_arith)
        requires
            0 <= q * w + r < w * height,
            0 <= r < w,
    ;
}

/// A buffer is determined by its size and by what each pixel holds.
pub proof fn lemma_same_pixels_equal(a: FramebufferView, b: FramebufferView)
    requires
        a.wf(),
        b.wf(),
        a.same_pixels(b),
    ensures
        a == b,
{
    assert(a.colors =~= b.colors) by {
        assert forall|i: int| 0 <= i < a.colors.len() implies a.colors[i] == b.colors[i] by {
            lemma_cell_is_pixel(a.width, a.height, i);
            let x = i % (a.width as int);
            let y = i / (a.width as int);
            assert(a.in_bounds(x, y));
            assert(a.color_at(x, y) == b.color_at(x, y));
        }
    }
    assert(a.depths =~= b.depths) by {
        assert forall|i: int| 0 <= i < a.depths.len() implies a.depths[i] == b.depths[i] by {
            lemma_cell_is_pixel(a.width, a.height, i);
            let x = i % (a.width as int);
            let y = i / (a.width as int);
            assert(a.in_bounds(x, y));
            assert(a.depth_at(x, y) == b.depth_at(x, y));
        }
    }
}

/// A grid of colors with a parallel grid of depths, both `width * height`
/// cells in row-major order.
pub struct Framebuffer {
    width: usize,
    height: usize,
    buffer: Vec<Color>,
    depth_buffer: Vec<i32>,
}

impl View for Framebuffer {
    type V = FramebufferView;

    closed spec fn view(&self) -> FramebufferView {
        FramebufferView {
            width: self.width as nat,
            height: self.height as nat,
            colors: self.buffer@,
            depths: self.depth_buffer@,
        }
    }
}

impl Framebuffer {
    /// A black buffer of the given size with nothing drawn on it.
    pub fn new(width: usize, height: usize) -> (fb: Self)
        requires
            width * height <= usize::MAX,
        ensures
            fb@.wf(),
            fb@.width == width,
            fb@.height == height,
            fb@.is_cleared(Color { r: 0, g: 0, b: 0 }),
    {
        let pixel_count = width * height;
        Self {
            width,
            height,
            buffer: vec![Color::black(); pixel_count],
            depth_buffer: vec![DEPTH_INFINITY; pixel_count],
        }
    }

    pub fn width(&self) -> (w: usize)
        ensures
            w == self@.width,
    {
        self.width
    }

    pub fn height(&self) -> (h: usize)
        ensures
            h == self@.height,
    {
        self.height
    }

    /// The cell of pixel `(x, y)`, or `None` outside the bounds.
    fn cell(&self, x: i32, y: i32) -> (cell: Option<usize>)
        requires
            self@.wf(),
        ensures
            cell.is_some() == self@.in_bounds(x as int, y as int),
            cell matches Some(i) ==> i == self@.index(x as int, y as int) && i < self@.colors.len()
                && i < self@.depths.len(),
    {
        if x >= 0 && (x as usize) < self.width && y >= 0 && (y as usize) < self.height {
            proof {
                lemma_index_in_range(self.width as nat, self.height as nat, x as int, y as int);
                assert(self.width * self.height == self.buffer.len());
                assert((y as usize) * self.width <= (y as usize) * self.width + (x as usize));
            }
            Some((y as usize) * self.width + (x as usize))
        } else {
            None
        }
    }

    /// Resets every pixel to `color` and every depth to infinity.
    pub fn clear(&mut self, color: Color)
        requires
            old(self)@.wf(),
        ensures
            final(self)@ == old(self)@.cleared(color),
            final(self)@.is_cleared(color),
            final(self)@.wf(),
    {
        let n = self.buffer.len();
        let mut i: usize = 0;
        while i < n
            invariant
                0 <= i <= n,
                n == self.buffer.len(),
                self.width == old(self).width,
                self.height == old(self).height,
                self.buffer.len() == old(self).buffer.len(),
                self.depth_buffer == old(self).depth_buffer,
                self@.wf(),
                forall|j: int| 0 <= j < i ==> self.buffer[j] == color,
            decreases n - i,
        {
            self.buffer.set(i, color);
            i += 1;
        }
        let m = self.depth_buffer.len();
        let mut k: usize = 0;
        while k < m
            invariant
                0 <= k <= m,
                m == self.depth_buffer.len(),
                self.width == old(self).width,
                self.height == old(self).height,
                self.buffer.len() == old(self).buffer.len(),
                self.depth_buffer.len() == old(self).depth_buffer.len(),
                self@.wf(),
                forall|j: int| 0 <= j < self.buffer.len() ==> self.buffer[j] == color,
                forall|j: int| 0 <= j < k ==> self.depth_buffer[j] == DEPTH_INFINITY,
            decreases m - k,
        {
            self.depth_buffer.set(k, DEPTH_INFINITY);
            k += 1;
        }
        proof {
            assert(self@.colors =~= old(self)@.cleared(color).colors);
            assert(self@.depths =~= old(self)@.cleared(color).depths);
        }
    }

    /// Writes `color` at `(x, y)` with no depth test. Outside the bounds
    /// nothing happens.
    pub fn set_pixel(&mut self, x: i32, y: i32, color: Color)
        requires
            old(self)@.wf(),
        ensures
            final(self)@ == old(self)@.with_color(x as int, y as int, color),
            final(self)@.wf(),
    {
        if let Some(index) = self.cell(x, y) {
            self.buffer.set(index, color);
        }
    }

    /// Offers a fragment at `(x, y)`: it is drawn, color and depth, only if
    /// the pixel exists and `z` is strictly less than the depth the pixel
    /// holds. Returns whether it was drawn.
    pub fn set_pixel_with_depth(&mut self, x: i32, y: i32, z: i32, color: Color) -> (drawn: bool)
        requires
            old(self)@.wf(),
        ensures
            drawn == old(self)@.passes_depth(x as int, y as int, z),
            final(self)@ == old(self)@.with_fragment(x as int, y as int, z, color),
            final(self)@.wf(),
    {
        if let Some(index) = self.cell(x, y) {
            if z < self.depth_buffer[index] {
                self.depth_buffer.set(index, z);
                self.buffer.set(index, color);
                return true;
            }
        }
        false
    }

    /// The color at `(x, y)`, or `None` outside the bounds.
    pub fn get_pixel(&self, x: i32, y: i32) -> (pixel: Option<Color>)
        requires
            self@.wf(),
        ensures
            pixel == (if self@.in_bounds(x as int, y as int) {
                Some(self@.color_at(x as int, y as int))
            } else {
                None
            }),
    {
        match self.cell(x, y) {
            Some(index) => Some(self.buffer[index]),
            None => None,
        }
    }

    /// The depth at `(x, y)`, or `None` outside the bounds.
    pub fn get_depth(&self, x: i32, y: i32) -> (depth: Option<i32>)
        requires
            self@.wf(),
        ensures
            depth == (if self@.in_bounds(x as int, y as int) {
                Some(self@.depth_at(x as int, y as int))
            } else {
                None
            }),
    {
        match self.cell(x, y) {
            Some(index) => Some(self.depth_buffer[index]),
            None => None,
        }
    }

    /// The colors, row by row.
    pub fn buffer(&self) -> (colors: &[Color])
        ensures
            colors@ == self@.colors,
    {
        self.buffer.as_slice()
    }
}

} // verus!
