use vstd::prelude::*;
use crate::color::Color;
use crate::fixed::DEPTH_ONE;
use crate::framebuffer::Framebuffer;
use crate::framebuffer::FramebufferView;
use crate::matrix::Mat4;
use crate::mesh::Face;
use crate::mesh::Model;
use crate::point::ScreenPoint;
use crate::projection::project_vertex;
use crate::projection::projected;
use crate::triangle::depth_in_range;
use crate::triangle::draw_triangle_filled;
use crate::triangle::draw_triangle_wireframe;
use crate::triangle::Vertex3D;

verus! {

/// The size of the screen that a buffer stands for, each side held to 32
/// bits.
pub open spec fn screen_size(v: FramebufferView) -> (int, int) {
    (
        if v.width > u32::MAX {
            u32::MAX as int
        } else {
            v.width as int
        },
        if v.height > u32::MAX {
            u32::MAX as int
        } else {
            v.height as int
        },
    )
}

/// Where the vertex with this index falls on the screen, if the mesh has
/// such a vertex, the vertex can be projected, and its depth lies between
/// the near and the far plane.
pub open spec fn corner_on_screen(
    model: Model,
    mvp: Mat4,
    index: usize,
    width: int,
    height: int,
) -> Option<ScreenPoint> {
    if index < model.vertices@.len() {
        match projected(mvp, model.vertices@[index as int].position, width, height) {
            Some(p) => if depth_in_range(p.z) {
                Some(p)
            } else {
                None
            },
            None => None,
        }
    } else {
        None
    }
}

/// The triangle that a face gives on the screen, all in one color: the
/// first three corners of the face, if each of them falls on the screen.
pub open spec fn face_on_screen(
    model: Model,
    mvp: Mat4,
    face: Face,
    color: Color,
    width: int,
    height: int,
) -> Option<(Vertex3D, Vertex3D, Vertex3D)> {
    if face.indices@.len() >= 3 {
        match (
            corner_on_screen(model, mvp, face.indices@[0], width, height),
            corner_on_screen(model, mvp, face.indices@[1], width, height),
            corner_on_screen(model, mvp, face.indices@[2], width, height),
        ) {
            (Some(a), Some(b), Some(c)) => Some(
                (
                    Vertex3D { position: a, color },
                    Vertex3D { position: b, color },
                    Vertex3D { position: c, color },
                ),
            ),
            _ => None,
        }
    } else {
        None
    }
}

impl FramebufferView {
    /// The buffer after a face of the mesh was drawn: filled, or as a
    /// wireframe in the same color. A face that gives no triangle on the
    /// screen leaves the buffer as it was.
    pub open spec fn with_face(
        self,
        model: Model,
        mvp: Mat4,
        face: Face,
        color: Color,
        wireframe: bool,
    ) -> Self {
        match face_on_screen(model, mvp, face, color, screen_size(self).0, screen_size(self).1) {
            Some((v0, v1, v2)) => if wireframe {
                self.with_wireframe(v0, v1, v2, color)
            } else {
                self.with_triangle(v0, v1, v2)
            },
            None => self,
        }
    }
}

/// One corner of a face on the screen.
fn project_corner(model: &Model, mvp: &Mat4, index: usize, width: u32, height: u32) -> (corner:
    Option<ScreenPoint>)
    ensures
        corner == corner_on_screen(*model, *mvp, index, width as int, height as int),
{
    if index >= model.vertices.len() {
        return None;
    }
    match project_vertex(mvp, &model.vertices[index].position, width, height) {
        Some(p) => {
            if -DEPTH_ONE <= p.z && p.z <= DEPTH_ONE {
                Some(p)
            } else {
                None
            }
        },
        None => None,
    }
}

fn hold_to_32_bits(size: usize) -> (r: u32)
    ensures
        r == (if size > u32::MAX {
            u32::MAX as int
        } else {
            size as int
        }),
{
    if size > u32::MAX as usize {
        u32::MAX
    } else {
        size as u32
    }
}

/// Draws one face of a mesh as the camera sees it, in one color. The face is
/// left out, and `false` returned, if it has fewer than three corners or if
/// one of its first three does not exist in the mesh, cannot be projected,
/// or lies outside the depth range.
pub fn draw_face(
    framebuffer: &mut Framebuffer,
    model: &Model,
    face: &Face,
    mvp: &Mat4,
    color: Color,
    wireframe: bool,
) -> (drawn: bool)
    requires
        old(framebuffer)@.wf(),
    ensures
        final(framebuffer)@ == old(framebuffer)@.with_face(*model, *mvp, *face, color, wireframe),
        final(framebuffer)@.wf(),
        drawn == face_on_screen(
            *model,
            *mvp,
            *face,
            color,
            screen_size(old(framebuffer)@).0,
            screen_size(old(framebuffer)@).1,
        ).is_some(),
{
    let width = hold_to_32_bits(framebuffer.width());
    let height = hold_to_32_bits(framebuffer.height());
    if face.indices.len() < 3 {
        return false;
    }
    let a = match project_corner(model, mvp, face.indices[0], width, height) {
        Some(p) => p,
        None => {
            return false;
        },
    };
    let b = match project_corner(model, mvp, face.indices[1], width, height) {
        Some(p) => p,
        None => {
            return false;
        },
    };
    let c = match project_corner(model, mvp, face.indices[2], width, height) {
        Some(p) => p,
        None => {
            return false;
        },
    };
    let v0 = Vertex3D::new(a, color);
    let v1 = Vertex3D::new(b, color);
    let v2 = Vertex3D::new(c, color);
    if wireframe {
        draw_triangle_wireframe(framebuffer, &v0, &v1, &v2, color);
    } else {
        draw_triangle_filled(framebuffer, &v0, &v1, &v2);
    }
    true
}

} // verus!
