use vstd::prelude::*;
use crate::fixed::fits_i32;
use crate::fixed::FIXED_ONE;
use crate::fixed::trunc_div;
use crate::matrix::Mat4;
use crate::matrix::model_matrix;
use crate::matrix::model_product;
use crate::matrix::mvp_matrix;
use crate::matrix::mvp_product;
use crate::matrix::perspective;
use crate::matrix::perspective_matrix;
use crate::matrix::Rotation;
use crate::point::Vec3;

verus! {

/// The pitch never leaves `-PITCH_LIMIT ..= PITCH_LIMIT`: a quarter turn
/// less a tenth of a radian, so that the view never flips over.
pub const PITCH_LIMIT: i32 = 96390;

/// The state of an orbiting camera. `rotation_x` is the pitch and
/// `rotation_y` the yaw, in radians; `fov` is the vertical field of view in
/// radians; all numbers are fixed-point.
#[derive(Debug, Clone, Copy, PartialEq, Eq, Structural)]
pub struct Camera {
    pub rotation_x: i32,
    pub rotation_y: i64,
    pub scale: i32,
    pub auto_rotate: bool,
    pub position: Vec3,
    pub target: Vec3,
    pub up: Vec3,
    pub fov: i32,
    pub aspect_ratio: i32,
    pub near_plane: i32,
    pub far_plane: i32,
}

/// The pitch `p` brought back into the allowed range.
pub open spec fn clamp_pitch(p: int) -> int {
    if p < -PITCH_LIMIT {
        -PITCH_LIMIT as int
    } else if p > PITCH_LIMIT {
        PITCH_LIMIT as int
    } else {
        p
    }
}

/// The pitch after `n` rotations by `delta` each, starting from `p`.
pub open spec fn pitch_after(p: int, delta: int, n: nat) -> int
    decreases n,
{
    if n == 0 {
        p
    } else {
        clamp_pitch(pitch_after(p, delta, (n - 1) as nat) + delta)
    }
}

pub open spec fn default_position() -> Vec3 {
    Vec3 { x: 0, y: 0, z: 327680 }
}

pub open spec fn default_target() -> Vec3 {
    Vec3 { x: 0, y: 0, z: 0 }
}

impl Camera {
    /// The pitch is within its limits, the clip planes are positive with the
    /// near one nearer, and the aspect ratio is positive.
    pub open spec fn wf(self) -> bool {
        &&& -PITCH_LIMIT <= self.rotation_x <= PITCH_LIMIT
        &&& 0 < self.near_plane < self.far_plane
        &&& 0 < self.aspect_ratio
    }

    /// A camera for a viewport of `width` by `height` pixels: five units in
    /// front of the origin, looking at it, not rotated, at scale 1, turning
    /// by itself, with a field of view of an eighth of a turn and clip
    /// planes at 0.1 and 100.
    pub fn new(width: u32, height: u32) -> (camera: Self)
        requires
            0 < height <= width * FIXED_ONE,
            width < 32768 * height,
        ensures
            camera.wf(),
            camera == (Camera {
                rotation_x: 0,
                rotation_y: 0,
                scale: 65536,
                auto_rotate: true,
                position: default_position(),
                target: default_target(),
                up: Vec3 { x: 0, y: 65536, z: 0 },
                fov: 51472,
                aspect_ratio: ((width * FIXED_ONE) / (height as int)) as i32,
                near_plane: 6554,
                far_plane: 6553600,
            }),
    {
        let ratio: i64 = (width as i64 * FIXED_ONE) / (height as i64);
        assert(1 <= ratio <= i32::MAX) by {
            vstd::arithmetic::div_mod::lemma_div_is_ordered(
                height as int,
                width * FIXED_ONE,
                height as int,
            );
            vstd::arithmetic::div_mod::lemma_div_by_self(height as int);
            assert(width * FIXED_ONE < height * 0x8000_0000) by (nonlinear_arith)
                requires
                    width < 32768 * height,
                    FIXED_ONE == 65536,
            ;
            vstd::arithmetic::div_mod::lemma_multiply_divide_lt(
                width * FIXED_ONE,
                height as int,
                0x8000_0000,
            );
        }
        Camera {
            rotation_x: 0,
            rotation_y: 0,
            scale: 65536,
            auto_rotate: true,
            position: Vec3 { x: 0, y: 0, z: 327680 },
            target: Vec3 { x: 0, y: 0, z: 0 },
            up: Vec3 { x: 0, y: 65536, z: 0 },
            fov: 51472,
            aspect_ratio: ratio as i32,
            near_plane: 6554,
            far_plane: 6553600,
        }
    }

    /// Puts rotation, scale, position and target back to what a new camera
    /// has. Everything else stays: the aspect ratio, the clip planes, the
    /// field of view, the up vector and the auto-rotate flag.
    pub fn reset(&mut self)
        ensures
            *final(self) == (Camera {
                rotation_x: 0,
                rotation_y: 0,
                scale: 65536,
                position: default_position(),
                target: default_target(),
                ..*old(self)
            }),
            old(self).wf() ==> final(self).wf(),
    {
        self.rotation_x = 0;
        self.rotation_y = 0;
        self.scale = 65536;
        self.position = Vec3 { x: 0, y: 0, z: 327680 };
        self.target = Vec3 { x: 0, y: 0, z: 0 };
    }

    /// Lets `dt` seconds pass: with auto-rotate on, the yaw advances by half
    /// a radian per second; with it off, nothing changes.
    pub fn update(&mut self, dt: i64)
        requires
            0 <= dt,
            old(self).rotation_y + dt / 2 <= i64::MAX,
        ensures
            *final(self) == (Camera {
                rotation_y: if old(self).auto_rotate {
                    (old(self).rotation_y + dt / 2) as i64
                } else {
                    old(self).rotation_y
                },
                ..*old(self)
            }),
    {
        if self.auto_rotate {
            self.rotation_y = self.rotation_y + dt / 2;
        }
    }

    /// Turns the camera: the yaw takes `delta_yaw` without bounds, the pitch
    /// takes `delta_pitch` and is then brought back into its limits.
    pub fn rotate(&mut self, delta_yaw: i64, delta_pitch: i64)
        requires
            i64::MIN <= old(self).rotation_y + delta_yaw <= i64::MAX,
        ensures
            *final(self) == (Camera {
                rotation_y: (old(self).rotation_y + delta_yaw) as i64,
                rotation_x: clamp_pitch(old(self).rotation_x + delta_pitch) as i32,
                ..*old(self)
            }),
            -PITCH_LIMIT <= final(self).rotation_x <= PITCH_LIMIT,
    {
        self.rotation_y = self.rotation_y + delta_yaw;
        let pitch: i128 = self.rotation_x as i128 + delta_pitch as i128;
        self.rotation_x = if pitch < -(PITCH_LIMIT as i128) {
            -PITCH_LIMIT
        } else if pitch > PITCH_LIMIT as i128 {
            PITCH_LIMIT
        } else {
            pitch as i32
        };
    }

    /// Enlarges the model by a tenth: the scale is multiplied by 1.1.
    pub fn zoom_in(&mut self)
        requires
            fits_i32(trunc_div(old(self).scale * 11, 10)),
        ensures
            *final(self) == (Camera {
                scale: trunc_div(old(self).scale * 11, 10) as i32,
                ..*old(self)
            }),
    {
        self.scale = ((self.scale as i64) * 11 / 10) as i32;
    }

    /// Shrinks the model: the scale is divided by 1.1. There is no floor:
    /// zooming out again and again brings the scale to zero.
    pub fn zoom_out(&mut self)
        ensures
            *final(self) == (Camera {
                scale: trunc_div(old(self).scale * 10, 11) as i32,
                ..*old(self)
            }),
    {
        self.scale = ((self.scale as i64) * 10 / 11) as i32;
    }

    /// The projection matrix: the right-handed perspective projection with
    /// the camera's aspect ratio and clip planes. `focal` is the focal
    /// length that goes with the field of view, the cotangent of half of it.
    pub fn get_projection_matrix(&self, focal: i32) -> (projection: Option<Mat4>)
        requires
            self.wf(),
        ensures
            projection == perspective_matrix(
                focal,
                self.aspect_ratio,
                self.near_plane,
                self.far_plane,
            ),
    {
        perspective(focal, self.aspect_ratio, self.near_plane, self.far_plane)
    }

    /// The model matrix: `scaling * rotation_y * rotation_x` with the
    /// camera's scale. `pitch` and `yaw` are the sines and cosines of its
    /// two angles.
    pub fn get_model_matrix(&self, pitch: &Rotation, yaw: &Rotation) -> (model: Option<Mat4>)
        requires
            pitch.wf(),
            yaw.wf(),
        ensures
            model == model_product(self.scale, *pitch, *yaw),
    {
        model_matrix(self.scale, pitch, yaw)
    }

    /// The matrix from the model to clip space:
    /// `projection * view * model`, where `view` is the look-at transform
    /// from the camera's position toward its target.
    pub fn get_mvp_matrix(&self, focal: i32, view: &Mat4, pitch: &Rotation, yaw: &Rotation) -> (mvp:
        Option<Mat4>)
        requires
            self.wf(),
            pitch.wf(),
            yaw.wf(),
        ensures
            mvp == (match (
                perspective_matrix(focal, self.aspect_ratio, self.near_plane, self.far_plane),
                model_product(self.scale, *pitch, *yaw),
            ) {
                (Some(projection), Some(model)) => mvp_product(projection, *view, model),
                _ => None,
            }),
    {
        let projection = match self.get_projection_matrix(focal) {
            Some(p) => p,
            None => {
                return None;
            },
        };
        let model = match self.get_model_matrix(pitch, yaw) {
            Some(m) => m,
            None => {
                return None;
            },
        };
        mvp_matrix(&projection, view, &model)
    }
}

/// However far the pitch is pushed, it stops at the limit. After any number
/// of rotations by a delta that is not negative, the pitch is the lesser of
/// the limit and what the deltas add up to: it never passes the limit, and
/// it is exactly the limit as soon as the deltas reach it.
pub proof fn law_pitch_stops_at_limit(p: int, delta: int, n: nat)
    requires
        -PITCH_LIMIT <= p <= PITCH_LIMIT,
        delta >= 0,
    ensures
        pitch_after(p, delta, n) <= PITCH_LIMIT,
        pitch_after(p, delta, n) == (if p + n * delta >= PITCH_LIMIT {
            PITCH_LIMIT as int
        } else {
            p + n * delta
        }),
        n >= 1 && delta >= 2 * PITCH_LIMIT ==> pitch_after(p, delta, n) == PITCH_LIMIT,
    decreases n,
{
    if n == 0 {
        assert(0 * delta == 0);
    } else {
        let m = (n - 1) as nat;
        law_pitch_stops_at_limit(p, delta, m);
        assert(n * delta == m * delta + delta) by (nonlinear_arith)
            requires
                n == m + 1,
        ;
        assert(m * delta >= 0) by (nonlinear_arith)
            requires
                m >= 0,
                delta >= 0,
        ;
    }
}

/// The same toward the lower limit, for deltas that are not positive.
pub proof fn law_pitch_stops_at_lower_limit(p: int, delta: int, n: nat)
    requires
        -PITCH_LIMIT <= p <= PITCH_LIMIT,
        delta <= 0,
    ensures
        pitch_after(p, delta, n) >= -PITCH_LIMIT,
        pitch_after(p, delta, n) == (if p + n * delta <= -PITCH_LIMIT {
            -PITCH_LIMIT as int
        } else {
            p + n * delta
        }),
    decreases n,
{
    if n == 0 {
        assert(0 * delta == 0);
    } else {
        let m = (n - 1) as nat;
        law_pitch_stops_at_lower_limit(p, delta, m);
        assert(n * delta == m * delta + delta) by (nonlinear_arith)
            requires
                n == m + 1,
        ;
        assert(m * delta <= 0) by (nonlinear_arith)
            requires
                m >= 0,
                delta <= 0,
        ;
    }
}

} // verus!
