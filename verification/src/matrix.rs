use vstd::prelude::*;
use crate::fixed::divide;
use crate::fixed::fits_i32;
use crate::fixed::FIXED_ONE;
use crate::fixed::lemma_product_small;
use crate::fixed::narrow;
use crate::fixed::quotient;
use crate::fixed::trunc_div;

verus! {

/// A 4x4 matrix of fixed-point numbers, by rows: `m[i][j]` stands in row `i`
/// and column `j`. It acts on column vectors, so in a product the factor on
/// the right is applied first.
#[derive(Debug, Clone, Copy, PartialEq, Eq)]
pub struct Mat4 {
    pub m: [[i32; 4]; 4],
}

/// The sine and the cosine of an angle, fixed-point.
#[derive(Debug, Clone, Copy, PartialEq, Eq, Structural)]
pub struct Rotation {
    pub sin: i32,
    pub cos: i32,
}

impl Rotation {
    /// Neither number is beyond 1 in absolute value.
    pub open spec fn wf(self) -> bool {
        &&& -FIXED_ONE <= self.sin <= FIXED_ONE
        &&& -FIXED_ONE <= self.cos <= FIXED_ONE
    }
}

impl Mat4 {
    pub open spec fn at(self, i: int, j: int) -> int {
        self.m[i][j] as int
    }

    /// The entry in row `i` and column `j` of the product `self * rhs`: the
    /// row of the one times the column of the other, brought back to the
    /// fixed-point scale and rounded toward zero.
    pub open spec fn product_entry(self, rhs: Mat4, i: int, j: int) -> int {
        trunc_div(
            self.at(i, 0) * rhs.at(0, j) + self.at(i, 1) * rhs.at(1, j) + self.at(i, 2) * rhs.at(
                2,
                j,
            ) + self.at(i, 3) * rhs.at(3, j),
            FIXED_ONE as int,
        )
    }

    /// Every entry of the product `self * rhs` is a 32-bit number.
    pub open spec fn product_fits(self, rhs: Mat4) -> bool {
        forall|i: int, j: int|
            0 <= i < 4 && 0 <= j < 4 ==> fits_i32(#[trigger] self.product_entry(rhs, i, j))
    }

    /// The product `self * rhs`, where it fits.
    pub open spec fn product(self, rhs: Mat4) -> Mat4 {
        Mat4 {
            m: [
                [
                    self.product_entry(rhs, 0, 0) as i32,
                    self.product_entry(rhs, 0, 1) as i32,
                    self.product_entry(rhs, 0, 2) as i32,
                    self.product_entry(rhs, 0, 3) as i32,
                ],
                [
                    self.product_entry(rhs, 1, 0) as i32,
                    self.product_entry(rhs, 1, 1) as i32,
                    self.product_entry(rhs, 1, 2) as i32,
                    self.product_entry(rhs, 1, 3) as i32,
                ],
                [
                    self.product_entry(rhs, 2, 0) as i32,
                    self.product_entry(rhs, 2, 1) as i32,
                    self.product_entry(rhs, 2, 2) as i32,
                    self.product_entry(rhs, 2, 3) as i32,
                ],
                [
                    self.product_entry(rhs, 3, 0) as i32,
                    self.product_entry(rhs, 3, 1) as i32,
                    self.product_entry(rhs, 3, 2) as i32,
                    self.product_entry(rhs, 3, 3) as i32,
                ],
            ],
        }
    }

    /// The product `self * rhs`, or `None` if an entry of it is no 32-bit
    /// number.
    pub open spec fn checked_product(self, rhs: Mat4) -> Option<Mat4> {
        if self.product_fits(rhs) {
            Some(self.product(rhs))
        } else {
            None
        }
    }

    pub open spec fn identity_matrix() -> Mat4 {
        Mat4 {
            m: [
                [65536i32, 0i32, 0i32, 0i32],
                [0i32, 65536i32, 0i32, 0i32],
                [0i32, 0i32, 65536i32, 0i32],
                [0i32, 0i32, 0i32, 65536i32],
            ],
        }
    }

    pub open spec fn scaling_matrix(s: i32) -> Mat4 {
        Mat4 {
            m: [
                [s, 0i32, 0i32, 0i32],
                [0i32, s, 0i32, 0i32],
                [0i32, 0i32, s, 0i32],
                [0i32, 0i32, 0i32, 65536i32],
            ],
        }
    }

    pub open spec fn rotation_x_matrix(angle: Rotation) -> Mat4 {
        Mat4 {
            m: [
                [65536i32, 0i32, 0i32, 0i32],
                [0i32, angle.cos, (-angle.sin) as i32, 0i32],
                [0i32, angle.sin, angle.cos, 0i32],
                [0i32, 0i32, 0i32, 65536i32],
            ],
        }
    }

    pub open spec fn rotation_y_matrix(angle: Rotation) -> Mat4 {
        Mat4 {
            m: [
                [angle.cos, 0i32, angle.sin, 0i32],
                [0i32, 65536i32, 0i32, 0i32],
                [(-angle.sin) as i32, 0i32, angle.cos, 0i32],
                [0i32, 0i32, 0i32, 65536i32],
            ],
        }
    }

    /// The identity.
    pub fn identity() -> (id: Mat4)
        ensures
            id == Mat4::identity_matrix(),
    {
        Mat4 { m: [[65536, 0, 0, 0], [0, 65536, 0, 0], [0, 0, 65536, 0], [0, 0, 0, 65536]] }
    }

    /// The matrix that scales the three axes by `s`.
    pub fn scaling(s: i32) -> (r: Mat4)
        ensures
            r == Mat4::scaling_matrix(s),
    {
        Mat4 { m: [[s, 0, 0, 0], [0, s, 0, 0], [0, 0, s, 0], [0, 0, 0, 65536]] }
    }

    /// The rotation about the x axis by the angle with these sine and
    /// cosine.
    pub fn rotation_x(angle: &Rotation) -> (r: Mat4)
        requires
            angle.wf(),
        ensures
            r == Mat4::rotation_x_matrix(*angle),
    {
        Mat4 {
            m: [
                [65536, 0, 0, 0],
                [0, angle.cos, -angle.sin, 0],
                [0, angle.sin, angle.cos, 0],
                [0, 0, 0, 65536],
            ],
        }
    }

    /// The rotation about the y axis by the angle with these sine and
    /// cosine.
    pub fn rotation_y(angle: &Rotation) -> (r: Mat4)
        requires
            angle.wf(),
        ensures
            r == Mat4::rotation_y_matrix(*angle),
    {
        Mat4 {
            m: [
                [angle.cos, 0, angle.sin, 0],
                [0, 65536, 0, 0],
                [-angle.sin, 0, angle.cos, 0],
                [0, 0, 0, 65536],
            ],
        }
    }

    /// The product `self * rhs`, or `None` if an entry of it is no 32-bit
    /// number.
    pub fn checked_mul(&self, rhs: &Mat4) -> (product: Option<Mat4>)
        ensures
            product == self.checked_product(*rhs),
    {
        let r0 = match product_row(self, rhs, 0) {
            Some(r) => r,
            None => {
                return None;
            },
        };
        let r1 = match product_row(self, rhs, 1) {
            Some(r) => r,
            None => {
                return None;
            },
        };
        let r2 = match product_row(self, rhs, 2) {
            Some(r) => r,
            None => {
                return None;
            },
        };
        let r3 = match product_row(self, rhs, 3) {
            Some(r) => r,
            None => {
                return None;
            },
        };
        let p = Mat4 { m: [r0, r1, r2, r3] };
        proof {
            assert forall|i: int, j: int| 0 <= i < 4 && 0 <= j < 4 implies #[trigger] p.at(i, j)
                == self.product_entry(*rhs, i, j) by {
                assert(p.m[i] == (if i == 0 {
                    r0
                } else if i == 1 {
                    r1
                } else if i == 2 {
                    r2
                } else {
                    r3
                }));
            }
        }
        proof {
            lemma_entries_decide(p, self.product(*rhs));
        }
        Some(p)
    }
}

/// A matrix is its sixteen entries.
pub proof fn lemma_entries_decide(a: Mat4, b: Mat4)
    requires
        forall|i: int, j: int| 0 <= i < 4 && 0 <= j < 4 ==> a.at(i, j) == b.at(i, j),
    ensures
        a == b,
{
    assert forall|i: int| 0 <= i < 4 implies a.m[i] == b.m[i] by {
        assert forall|j: int| 0 <= j < 4 implies a.m[i][j] == b.m[i][j] by {
            assert(a.at(i, j) == b.at(i, j));
        }
        assert(a.m[i] =~= b.m[i]);
    }
    assert(a.m =~= b.m);
}

/// Multiplying by the identity, on either side, changes nothing.
pub proof fn law_identity_neutral(a: Mat4)
    ensures
        Mat4::identity_matrix().checked_product(a) == Some(a),
        a.checked_product(Mat4::identity_matrix()) == Some(a),
{
    let id = Mat4::identity_matrix();
    assert forall|i: int, j: int| 0 <= i < 4 && 0 <= j < 4 implies #[trigger] id.product_entry(
        a,
        i,
        j,
    ) == a.at(i, j) by {
        assert(id.at(i, 0) == (if i == 0 { 65536int } else { 0 }));
        assert(id.at(i, 1) == (if i == 1 { 65536int } else { 0 }));
        assert(id.at(i, 2) == (if i == 2 { 65536int } else { 0 }));
        assert(id.at(i, 3) == (if i == 3 { 65536int } else { 0 }));
    }
    assert forall|i: int, j: int| 0 <= i < 4 && 0 <= j < 4 implies #[trigger] a.product_entry(
        id,
        i,
        j,
    ) == a.at(i, j) by {
        assert(id.at(0, j) == (if j == 0 { 65536int } else { 0 }));
        assert(id.at(1, j) == (if j == 1 { 65536int } else { 0 }));
        assert(id.at(2, j) == (if j == 2 { 65536int } else { 0 }));
        assert(id.at(3, j) == (if j == 3 { 65536int } else { 0 }));
    }
    assert(id.product_fits(a));
    assert(a.product_fits(id));
    lemma_entries_decide(id.product(a), a);
    lemma_entries_decide(a.product(id), a);
}

/// The model transform: the rotation about the x axis, then the rotation
/// about the y axis, then the scaling, as the one product
/// `scaling * rotation_y * rotation_x`, taken from the left. `None` if an
/// entry on the way is no 32-bit number.
pub open spec fn model_product(scale: i32, pitch: Rotation, yaw: Rotation) -> Option<Mat4> {
    match Mat4::scaling_matrix(scale).checked_product(Mat4::rotation_y_matrix(yaw)) {
        Some(turned) => turned.checked_product(Mat4::rotation_x_matrix(pitch)),
        None => None,
    }
}

/// The product `projection * view * model`, taken from the left: the model
/// transform is applied to a point first, the projection last. `None` if an
/// entry on the way is no 32-bit number.
pub open spec fn mvp_product(projection: Mat4, view: Mat4, model: Mat4) -> Option<Mat4> {
    match projection.checked_product(view) {
        Some(seen) => seen.checked_product(model),
        None => None,
    }
}

/// The model matrix of a camera with this scale, pitch and yaw.
pub fn model_matrix(scale: i32, pitch: &Rotation, yaw: &Rotation) -> (model: Option<Mat4>)
    requires
        pitch.wf(),
        yaw.wf(),
    ensures
        model == model_product(scale, *pitch, *yaw),
{
    match Mat4::scaling(scale).checked_mul(&Mat4::rotation_y(yaw)) {
        Some(turned) => turned.checked_mul(&Mat4::rotation_x(pitch)),
        None => None,
    }
}

/// The matrix that takes a point of the model to clip space.
pub fn mvp_matrix(projection: &Mat4, view: &Mat4, model: &Mat4) -> (mvp: Option<Mat4>)
    ensures
        mvp == mvp_product(*projection, *view, *model),
{
    match projection.checked_mul(view) {
        Some(seen) => seen.checked_mul(model),
        None => None,
    }
}

/// With the identity for view and model, the projection alone is left.
pub proof fn law_mvp_of_identities(projection: Mat4)
    ensures
        mvp_product(projection, Mat4::identity_matrix(), Mat4::identity_matrix()) == Some(
            projection,
        ),
{
    law_identity_neutral(projection);
}

/// A camera that is not rotated and not scaled has the identity for its
/// model matrix.
pub proof fn law_model_at_rest()
    ensures
        model_product(65536, Rotation { sin: 0, cos: 65536 }, Rotation { sin: 0, cos: 65536 })
            == Some(Mat4::identity_matrix()),
{
    let rest = Rotation { sin: 0, cos: 65536 };
    lemma_entries_decide(Mat4::scaling_matrix(65536), Mat4::identity_matrix());
    lemma_entries_decide(Mat4::rotation_x_matrix(rest), Mat4::identity_matrix());
    lemma_entries_decide(Mat4::rotation_y_matrix(rest), Mat4::identity_matrix());
    law_identity_neutral(Mat4::identity_matrix());
}

/// One entry of a product.
fn product_at(a: &Mat4, b: &Mat4, i: usize, j: usize) -> (r: i128)
    requires
        i < 4,
        j < 4,
    ensures
        r == a.product_entry(*b, i as int, j as int),
{
    proof {
        lemma_product_small(a.at(i as int, 0), b.at(0, j as int));
        lemma_product_small(a.at(i as int, 1), b.at(1, j as int));
        lemma_product_small(a.at(i as int, 2), b.at(2, j as int));
        lemma_product_small(a.at(i as int, 3), b.at(3, j as int));
    }
    let sum: i128 = (a.m[i][0] as i128) * (b.m[0][j] as i128) + (a.m[i][1] as i128) * (
    b.m[1][j] as i128) + (a.m[i][2] as i128) * (b.m[2][j] as i128) + (a.m[i][3] as i128) * (
    b.m[3][j] as i128);
    sum / (FIXED_ONE as i128)
}

/// One row of a product, or `None` if an entry of it is no 32-bit number.
fn product_row(a: &Mat4, b: &Mat4, i: usize) -> (row: Option<[i32; 4]>)
    requires
        i < 4,
    ensures
        row.is_some() == (forall|j: int|
            0 <= j < 4 ==> fits_i32(#[trigger] a.product_entry(*b, i as int, j))),
        row matches Some(r) ==> forall|j: int|
            0 <= j < 4 ==> #[trigger] r[j] == a.product_entry(*b, i as int, j),
{
    let e0 = match narrow(product_at(a, b, i, 0)) {
        Some(e) => e,
        None => {
            assert(!fits_i32(a.product_entry(*b, i as int, 0)));
            return None;
        },
    };
    let e1 = match narrow(product_at(a, b, i, 1)) {
        Some(e) => e,
        None => {
            assert(!fits_i32(a.product_entry(*b, i as int, 1)));
            return None;
        },
    };
    let e2 = match narrow(product_at(a, b, i, 2)) {
        Some(e) => e,
        None => {
            assert(!fits_i32(a.product_entry(*b, i as int, 2)));
            return None;
        },
    };
    let e3 = match narrow(product_at(a, b, i, 3)) {
        Some(e) => e,
        None => {
            assert(!fits_i32(a.product_entry(*b, i as int, 3)));
            return None;
        },
    };
    Some([e0, e1, e2, e3])
}

/// The entries of a right-handed perspective projection that are neither 0
/// nor -1, for a lens of focal length `focal` (the cotangent of half the
/// vertical field of view): the scale of x, the scale of y, and the two
/// numbers that map depths between `near` and `far` to -1 .. 1.
pub open spec fn perspective_entries(focal: i32, aspect: i32, near: i32, far: i32) -> (
    int,
    int,
    int,
    int,
) {
    (
        quotient(focal * FIXED_ONE, aspect as int),
        focal as int,
        quotient((far + near) * FIXED_ONE, near - far),
        quotient(2 * (far * near), near - far),
    )
}

/// The right-handed perspective projection, or `None` if an entry of it is
/// no 32-bit number. The eye looks down the negative z axis: the last row
/// makes `-z` the divisor of the perspective division.
pub open spec fn perspective_matrix(focal: i32, aspect: i32, near: i32, far: i32) -> Option<Mat4> {
    let (sx, sy, a, b) = perspective_entries(focal, aspect, near, far);
    if fits_i32(sx) && fits_i32(a) && fits_i32(b) {
        Some(
            Mat4 {
                m: [
                    [sx as i32, 0i32, 0i32, 0i32],
                    [0i32, sy as i32, 0i32, 0i32],
                    [0i32, 0i32, a as i32, b as i32],
                    [0i32, 0i32, -65536i32, 0i32],
                ],
            },
        )
    } else {
        None
    }
}

/// The projection matrix of a camera with this focal length, aspect ratio
/// and clip planes.
pub fn perspective(focal: i32, aspect: i32, near: i32, far: i32) -> (projection: Option<Mat4>)
    requires
        0 < aspect,
        0 < near < far,
    ensures
        projection == perspective_matrix(focal, aspect, near, far),
{
    proof {
        lemma_product_small(far as int, near as int);
    }
    let depth: i128 = near as i128 - far as i128;
    let sx = match narrow(divide(focal as i128 * FIXED_ONE as i128, aspect as i128)) {
        Some(e) => e,
        None => {
            return None;
        },
    };
    let a = match narrow(divide((far as i128 + near as i128) * FIXED_ONE as i128, depth)) {
        Some(e) => e,
        None => {
            return None;
        },
    };
    let b = match narrow(divide(2 * ((far as i128) * (near as i128)), depth)) {
        Some(e) => e,
        None => {
            return None;
        },
    };
    Some(Mat4 { m: [[sx, 0, 0, 0], [0, focal, 0, 0], [0, 0, a, b], [0, 0, -65536, 0]] })
}

} // verus!
