//! A software triangle rasterizer on integer arithmetic, verified with
//! Verus.
//!
//! Nothing in this library is floating point. Screen coordinates count
//! sub-pixels, depths and the numbers of the camera are fixed-point, and
//! barycentric weights are exact fractions, so that every pixel a triangle
//! draws is stated exactly and proved.
//!
//! - [`framebuffer`]: a grid of colors with a parallel grid of depths, and
//!   the depth test; [`depth_test`] states what the depth test keeps.
//! - [`line`]: lines between pixels.
//! - [`barycentric`]: the weights of a point in a triangle and what they
//!   blend; [`triangle`]: triangles, filled and as wireframes.
//! - [`camera`], [`matrix`], [`projection`]: the state of an orbiting
//!   camera, its matrices, and the way of a point of the model to the
//!   screen.
//! - [`mesh`] and [`obj`]: a mesh of triangles, and the lines of a mesh file;
//!   [`scene`]: a face of a mesh on its way into the framebuffer.
//! - [`noise`]: a hash of the cells of a lattice, for procedural textures.
//! - [`fixed`], [`point`], [`color`]: the numbers, points and colors that
//!   the others share.

pub mod barycentric;
pub mod camera;
pub mod color;
pub mod fixed;
pub mod framebuffer;
pub mod line;
pub mod matrix;
pub mod mesh;
pub mod noise;
pub mod obj;
pub mod point;
pub mod projection;
pub mod scene;
pub mod triangle;
