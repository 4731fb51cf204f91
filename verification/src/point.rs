use vstd::prelude::*;

verus! {

/// A point or a vector of the model, in fixed-point coordinates.
#[derive(Debug, Clone, Copy, PartialEq, Eq, Structural)]
pub struct Vec3 {
    pub x: i32,
    pub y: i32,
    pub z: i32,
}

/// A projected point: `x` and `y` on the screen in sub-pixel units, `z` its
/// normalized depth in units of `1 / DEPTH_ONE`.
#[derive(Debug, Clone, Copy, PartialEq, Eq, Structural)]
pub struct ScreenPoint {
    pub x: i32,
    pub y: i32,
    pub z: i32,
}

} // verus!
