use vstd::prelude::*;
use crate::fixed::trunc_div;
use crate::point::Vec3;

verus! {

/// One face of a mesh: the positions of its corners in the list of
/// vertices.
#[derive(Debug, Clone)]
pub struct Face {
    pub indices: Vec<usize>,
}

/// One vertex of a mesh, in the model's own fixed-point coordinates.
#[derive(Debug, Clone, Copy)]
pub struct Vertex {
    pub position: Vec3,
}

impl Vertex {
    pub fn new(x: i32, y: i32, z: i32) -> (v: Self)
        ensures
            v.position == (Vec3 { x, y, z }),
    {
        Self { position: Vec3 { x, y, z } }
    }
}

/// A mesh of triangles.
#[derive(Debug)]
pub struct Model {
    pub vertices: Vec<Vertex>,
    pub faces: Vec<Face>,
}

/// The least of the first `n` values of one coordinate, `n >= 1`.
pub open spec fn least_of(values: Seq<int>, n: int) -> int
    decreases n,
{
    if n <= 1 {
        values[0]
    } else if values[n - 1] < least_of(values, n - 1) {
        values[n - 1]
    } else {
        least_of(values, n - 1)
    }
}

/// The greatest of the first `n` values of one coordinate, `n >= 1`.
pub open spec fn greatest_of(values: Seq<int>, n: int) -> int
    decreases n,
{
    if n <= 1 {
        values[0]
    } else if values[n - 1] > greatest_of(values, n - 1) {
        values[n - 1]
    } else {
        greatest_of(values, n - 1)
    }
}

/// The least of the first `n` values is one of them and no greater than any
/// of them; likewise the greatest.
pub proof fn lemma_extremes(values: Seq<int>, n: int)
    requires
        1 <= n <= values.len(),
    ensures
        forall|i: int| 0 <= i < n ==> least_of(values, n) <= #[trigger] values[i],
        forall|i: int| 0 <= i < n ==> greatest_of(values, n) >= #[trigger] values[i],
        exists|i: int| 0 <= i < n && #[trigger] values[i] == least_of(values, n),
        exists|i: int| 0 <= i < n && #[trigger] values[i] == greatest_of(values, n),
    decreases n,
{
    if n > 1 {
        lemma_extremes(values, n - 1);
        let i = choose|i: int| 0 <= i < n - 1 && #[trigger] values[i] == least_of(values, n - 1);
        let j = choose|j: int| 0 <= j < n - 1 && #[trigger] values[j] == greatest_of(values, n - 1);
        if values[n - 1] < least_of(values, n - 1) {
            assert(values[n - 1] == least_of(values, n));
        } else {
            assert(values[i] == least_of(values, n));
        }
        if values[n - 1] > greatest_of(values, n - 1) {
            assert(values[n - 1] == greatest_of(values, n));
        } else {
            assert(values[j] == greatest_of(values, n));
        }
    } else {
        assert(values[0] == least_of(values, n));
        assert(values[0] == greatest_of(values, n));
    }
}

/// The corners of a face line as positions counted from 0: every number
/// above 0, less one, in the order of the line. A 0 is passed over.
pub open spec fn corners_from_zero(corners: Seq<usize>) -> Seq<usize> {
    corners.filter_map(
        |c: usize|
            if c > 0 {
                Some((c - 1) as usize)
            } else {
                None
            },
    )
}

/// The triangles that one face line of a mesh file gives. The line lists
/// corners by their position in the file, counted from 1. Three or more
/// corners give the triangle of the first three; exactly four give a second
/// triangle that completes the quadrilateral.
pub open spec fn triangles_of(corners: Seq<usize>) -> Seq<Seq<usize>> {
    let kept = corners_from_zero(corners);
    if kept.len() == 4 {
        seq![seq![kept[0], kept[1], kept[2]], seq![kept[0], kept[2], kept[3]]]
    } else if kept.len() >= 3 {
        seq![seq![kept[0], kept[1], kept[2]]]
    } else {
        seq![]
    }
}

/// One coordinate of a vertex after the mesh was brought to `target`: its
/// offset from the center, times `target` over the extent, rounded toward
/// zero.
pub open spec fn rescaled(coordinate: int, center: int, target: int, extent: int) -> int {
    trunc_div((coordinate - center) * target, extent)
}

/// A rescaled coordinate is no longer than the target.
proof fn lemma_rescaled_fits(d: int, t: int, s: int)
    requires
        0 < s,
        -s <= d <= s,
        -0x7fff_ffff <= t <= 0x7fff_ffff,
    ensures
        -0x7fff_ffff <= trunc_div(d * t, s) <= 0x7fff_ffff,
        -0x1_0000_0000_0000_0000 <= d * t <= 0x1_0000_0000_0000_0000 || s > 0x1_0000_0000,
{
    let n = d * t;
    assert(-(s * 0x7fff_ffff) <= n <= s * 0x7fff_ffff) by (nonlinear_arith)
        requires
            n == d * t,
            0 < s,
            -s <= d <= s,
            -0x7fff_ffff <= t <= 0x7fff_ffff,
    ;
    if n >= 0 {
        vstd::arithmetic::div_mod::lemma_multiply_divide_le(n, s, 0x7fff_ffff);
        vstd::arithmetic::div_mod::lemma_div_pos_is_pos(n, s);
    } else {
        vstd::arithmetic::div_mod::lemma_multiply_divide_le(-n, s, 0x7fff_ffff);
        vstd::arithmetic::div_mod::lemma_div_pos_is_pos(-n, s);
    }
    if s <= 0x1_0000_0000 {
        assert(-0x1_0000_0000_0000_0000 <= n <= 0x1_0000_0000_0000_0000) by (nonlinear_arith)
            requires
                -(s * 0x7fff_ffff) <= n <= s * 0x7fff_ffff,
                0 < s <= 0x1_0000_0000,
        ;
    }
}

impl Model {
    pub open spec fn xs(self) -> Seq<int> {
        Seq::new(self.vertices@.len(), |i: int| self.vertices@[i].position.x as int)
    }

    pub open spec fn ys(self) -> Seq<int> {
        Seq::new(self.vertices@.len(), |i: int| self.vertices@[i].position.y as int)
    }

    pub open spec fn zs(self) -> Seq<int> {
        Seq::new(self.vertices@.len(), |i: int| self.vertices@[i].position.z as int)
    }

    /// The least corner of the box around the vertices, the origin if there
    /// are none.
    pub open spec fn box_min(self) -> Vec3 {
        let n = self.vertices@.len() as int;
        if n == 0 {
            Vec3 { x: 0, y: 0, z: 0 }
        } else {
            Vec3 {
                x: least_of(self.xs(), n) as i32,
                y: least_of(self.ys(), n) as i32,
                z: least_of(self.zs(), n) as i32,
            }
        }
    }

    /// The greatest corner of the box around the vertices, the origin if
    /// there are none.
    pub open spec fn box_max(self) -> Vec3 {
        let n = self.vertices@.len() as int;
        if n == 0 {
            Vec3 { x: 0, y: 0, z: 0 }
        } else {
            Vec3 {
                x: greatest_of(self.xs(), n) as i32,
                y: greatest_of(self.ys(), n) as i32,
                z: greatest_of(self.zs(), n) as i32,
            }
        }
    }

    /// The middle of the box, each coordinate rounded toward zero.
    pub open spec fn center(self) -> Vec3 {
        Vec3 {
            x: trunc_div(self.box_min().x + self.box_max().x, 2) as i32,
            y: trunc_div(self.box_min().y + self.box_max().y, 2) as i32,
            z: trunc_div(self.box_min().z + self.box_max().z, 2) as i32,
        }
    }

    /// The longest side of the box.
    pub open spec fn extent(self) -> int {
        let sx = self.box_max().x - self.box_min().x;
        let sy = self.box_max().y - self.box_min().y;
        let sz = self.box_max().z - self.box_min().z;
        if sx >= sy && sx >= sz {
            sx
        } else if sy >= sz {
            sy
        } else {
            sz
        }
    }

    /// A mesh with no vertices and no faces.
    pub fn new() -> (model: Self)
        ensures
            model.vertices@.len() == 0,
            model.faces@.len() == 0,
    {
        Self { vertices: Vec::new(), faces: Vec::new() }
    }

    /// The box around the vertices, as its least and its greatest corner.
    /// A mesh without vertices has the origin for both.
    pub fn get_bounding_box(&self) -> (corners: (Vec3, Vec3))
        ensures
            corners.0 == self.box_min(),
            corners.1 == self.box_max(),
    {
        if self.vertices.len() == 0 {
            return (Vec3 { x: 0, y: 0, z: 0 }, Vec3 { x: 0, y: 0, z: 0 });
        }
        let first = self.vertices[0].position;
        let mut min = first;
        let mut max = first;
        let mut i: usize = 1;
        while i < self.vertices.len()
            invariant
                1 <= i <= self.vertices.len(),
                min.x == least_of(self.xs(), i as int),
                min.y == least_of(self.ys(), i as int),
                min.z == least_of(self.zs(), i as int),
                max.x == greatest_of(self.xs(), i as int),
                max.y == greatest_of(self.ys(), i as int),
                max.z == greatest_of(self.zs(), i as int),
            decreases self.vertices.len() - i,
        {
            let pos = self.vertices[i].position;
            if pos.x < min.x {
                min.x = pos.x;
            }
            if pos.y < min.y {
                min.y = pos.y;
            }
            if pos.z < min.z {
                min.z = pos.z;
            }
            if pos.x > max.x {
                max.x = pos.x;
            }
            if pos.y > max.y {
                max.y = pos.y;
            }
            if pos.z > max.z {
                max.z = pos.z;
            }
            i += 1;
        }
        (min, max)
    }

    /// The middle of the bounding box.
    pub fn get_center(&self) -> (center: Vec3)
        ensures
            center == self.center(),
    {
        let (min, max) = self.get_bounding_box();
        Vec3 {
            x: ((min.x as i64 + max.x as i64) / 2) as i32,
            y: ((min.y as i64 + max.y as i64) / 2) as i32,
            z: ((min.z as i64 + max.z as i64) / 2) as i32,
        }
    }

    /// The longest side of the bounding box.
    pub fn get_scale(&self) -> (scale: i64)
        ensures
            scale == self.extent(),
    {
        let (min, max) = self.get_bounding_box();
        let sx = max.x as i64 - min.x as i64;
        let sy = max.y as i64 - min.y as i64;
        let sz = max.z as i64 - min.z as i64;
        if sx >= sy && sx >= sz {
            sx
        } else if sy >= sz {
            sy
        } else {
            sz
        }
    }

    /// Moves the mesh to the origin and resizes it: the center of its box
    /// goes to the origin and the longest side of the box becomes
    /// `target_size`. A mesh whose box has no extent is left as it is.
    pub fn normalize(&mut self, target_size: i32)
        requires
            -0x7fff_ffff <= target_size,
        ensures
            final(self).faces == old(self).faces,
            final(self).vertices@.len() == old(self).vertices@.len(),
            old(self).extent() <= 0 ==> final(self).vertices@ == old(self).vertices@,
            old(self).extent() > 0 ==> forall|i: int|
                0 <= i < old(self).vertices@.len() ==> (#[trigger] final(self).vertices@[i]).position
                    == (Vec3 {
                    x: rescaled(
                        old(self).vertices@[i].position.x as int,
                        old(self).center().x as int,
                        target_size as int,
                        old(self).extent(),
                    ) as i32,
                    y: rescaled(
                        old(self).vertices@[i].position.y as int,
                        old(self).center().y as int,
                        target_size as int,
                        old(self).extent(),
                    ) as i32,
                    z: rescaled(
                        old(self).vertices@[i].position.z as int,
                        old(self).center().z as int,
                        target_size as int,
                        old(self).extent(),
                    ) as i32,
                }),
    {
        let center = self.get_center();
        let extent = self.get_scale();
        if extent <= 0 {
            return ;
        }
        let ghost before = *self;
        let n = self.vertices.len();
        proof {
            law_box_holds_vertices(before);
        }
        let mut i: usize = 0;
        while i < n
            invariant
                0 <= i <= n,
                n == self.vertices@.len(),
                n == before.vertices@.len(),
                n >= 1,
                before == *old(self),
                self.faces == before.faces,
                center == before.center(),
                extent == before.extent(),
                extent > 0,
                -0x7fff_ffff <= target_size,
                forall|k: int|
                    0 <= k < n ==> {
                        let p = (#[trigger] before.vertices@[k]).position;
                        &&& before.box_min().x <= p.x <= before.box_max().x
                        &&& before.box_min().y <= p.y <= before.box_max().y
                        &&& before.box_min().z <= p.z <= before.box_max().z
                    },
                forall|k: int| i <= k < n ==> self.vertices@[k] == before.vertices@[k],
                forall|k: int|
                    0 <= k < i ==> (#[trigger] self.vertices@[k]).position == (Vec3 {
                        x: rescaled(
                            before.vertices@[k].position.x as int,
                            center.x as int,
                            target_size as int,
                            extent as int,
                        ) as i32,
                        y: rescaled(
                            before.vertices@[k].position.y as int,
                            center.y as int,
                            target_size as int,
                            extent as int,
                        ) as i32,
                        z: rescaled(
                            before.vertices@[k].position.z as int,
                            center.z as int,
                            target_size as int,
                            extent as int,
                        ) as i32,
                    }),
            decreases n - i,
        {
            let pos = self.vertices[i].position;
            proof {
                assert(before.vertices@[i as int].position == pos);
                lemma_rescaled_fits(pos.x - center.x, target_size as int, extent as int);
                lemma_rescaled_fits(pos.y - center.y, target_size as int, extent as int);
                lemma_rescaled_fits(pos.z - center.z, target_size as int, extent as int);
            }
            let x = rescale(pos.x, center.x, target_size, extent);
            let y = rescale(pos.y, center.y, target_size, extent);
            let z = rescale(pos.z, center.z, target_size, extent);
            self.vertices.set(i, Vertex { position: Vec3 { x, y, z } });
            i += 1;
        }
    }

    /// Adds the triangles of one face line of a mesh file, whose corners are
    /// counted from 1.
    pub fn push_face(&mut self, corners: &Vec<usize>)
        ensures
            final(self).vertices == old(self).vertices,
            final(self).faces@.len() == old(self).faces@.len() + triangles_of(corners@).len(),
            forall|k: int|
                0 <= k < old(self).faces@.len() ==> final(self).faces@[k] == old(self).faces@[k],
            forall|k: int|
                0 <= k < triangles_of(corners@).len() ==> (#[trigger] final(self).faces@[old(
                    self,
                ).faces@.len() + k]).indices@ == triangles_of(corners@)[k],
    {
        let mut kept: Vec<usize> = Vec::new();
        let mut i: usize = 0;
        while i < corners.len()
            invariant
                0 <= i <= corners.len(),
                kept@ == corners_from_zero(corners@.take(i as int)),
            decreases corners.len() - i,
        {
            proof {
                assert(corners@.take(i + 1).drop_last() =~= corners@.take(i as int));
            }
            let c = corners[i];
            if c > 0 {
                kept.push(c - 1);
            }
            proof {
                let f = |c: usize|
                    if c > 0 {
                        Some((c - 1) as usize)
                    } else {
                        None
                    };
                assert(corners@.take(i + 1).last() == c);
                if c > 0 {
                    assert(corners@.take(i as int).filter_map(f) + seq![(c - 1) as usize]
                        =~= corners@.take(i as int).filter_map(f).push((c - 1) as usize));
                }
            }
            i += 1;
        }
        assert(corners@.take(corners@.len() as int) =~= corners@);
        let ghost start = self.faces@.len();
        if kept.len() >= 3 {
            let mut first: Vec<usize> = Vec::new();
            first.push(kept[0]);
            first.push(kept[1]);
            first.push(kept[2]);
            assert(first@ =~= seq![kept@[0], kept@[1], kept@[2]]);
            self.faces.push(Face { indices: first });
            if kept.len() == 4 {
                let mut second: Vec<usize> = Vec::new();
                second.push(kept[0]);
                second.push(kept[2]);
                second.push(kept[3]);
                assert(second@ =~= seq![kept@[0], kept@[2], kept@[3]]);
                self.faces.push(Face { indices: second });
            }
        }
    }
}

/// One rescaled coordinate.
fn rescale(coordinate: i32, center: i32, target: i32, extent: i64) -> (r: i32)
    requires
        extent > 0,
        -extent <= coordinate - center <= extent,
        -0x7fff_ffff <= target,
    ensures
        r == rescaled(coordinate as int, center as int, target as int, extent as int),
{
    proof {
        lemma_rescaled_fits(coordinate - center, target as int, extent as int);
        crate::fixed::lemma_product_small(coordinate - center, target as int);
    }
    let offset: i128 = coordinate as i128 - center as i128;
    ((offset * (target as i128)) / (extent as i128)) as i32
}

/// The bounding box holds every vertex, and each of its six sides touches
/// one.
pub proof fn law_box_holds_vertices(model: Model)
    requires
        model.vertices@.len() > 0,
    ensures
        forall|k: int|
            0 <= k < model.vertices@.len() ==> {
                let p = (#[trigger] model.vertices@[k]).position;
                &&& model.box_min().x <= p.x <= model.box_max().x
                &&& model.box_min().y <= p.y <= model.box_max().y
                &&& model.box_min().z <= p.z <= model.box_max().z
            },
        exists|k: int|
            0 <= k < model.vertices@.len() && (#[trigger] model.vertices@[k]).position.x
                == model.box_min().x,
        exists|k: int|
            0 <= k < model.vertices@.len() && (#[trigger] model.vertices@[k]).position.x
                == model.box_max().x,
        exists|k: int|
            0 <= k < model.vertices@.len() && (#[trigger] model.vertices@[k]).position.y
                == model.box_min().y,
        exists|k: int|
            0 <= k < model.vertices@.len() && (#[trigger] model.vertices@[k]).position.y
                == model.box_max().y,
        exists|k: int|
            0 <= k < model.vertices@.len() && (#[trigger] model.vertices@[k]).position.z
                == model.box_min().z,
        exists|k: int|
            0 <= k < model.vertices@.len() && (#[trigger] model.vertices@[k]).position.z
                == model.box_max().z,
        0 <= model.extent(),
{
    let n = model.vertices@.len() as int;
    lemma_extremes(model.xs(), n);
    lemma_extremes(model.ys(), n);
    lemma_extremes(model.zs(), n);
    let xl = choose|i: int| 0 <= i < n && #[trigger] model.xs()[i] == least_of(model.xs(), n);
    let xg = choose|i: int| 0 <= i < n && #[trigger] model.xs()[i] == greatest_of(model.xs(), n);
    let yl = choose|i: int| 0 <= i < n && #[trigger] model.ys()[i] == least_of(model.ys(), n);
    let yg = choose|i: int| 0 <= i < n && #[trigger] model.ys()[i] == greatest_of(model.ys(), n);
    let zl = choose|i: int| 0 <= i < n && #[trigger] model.zs()[i] == least_of(model.zs(), n);
    let zg = choose|i: int| 0 <= i < n && #[trigger] model.zs()[i] == greatest_of(model.zs(), n);
    assert(model.vertices@[xl].position.x == model.box_min().x);
    assert(model.vertices@[xg].position.x == model.box_max().x);
    assert(model.vertices@[yl].position.y == model.box_min().y);
    assert(model.vertices@[yg].position.y == model.box_max().y);
    assert(model.vertices@[zl].position.z == model.box_min().z);
    assert(model.vertices@[zg].position.z == model.box_max().z);
    assert forall|k: int| 0 <= k < model.vertices@.len() implies {
        let p = (#[trigger] model.vertices@[k]).position;
        &&& model.box_min().x <= p.x <= model.box_max().x
        &&& model.box_min().y <= p.y <= model.box_max().y
        &&& model.box_min().z <= p.z <= model.box_max().z
    } by {
        assert(model.xs()[k] == model.vertices@[k].position.x);
        assert(model.ys()[k] == model.vertices@[k].position.y);
        assert(model.zs()[k] == model.vertices@[k].position.z);
    }
    assert(model.box_min().x <= model.vertices@[0].position.x <= model.box_max().x);
}

} // verus!
