//! The camera: pixel-plane coordinates to primary rays.
//!
//! The camera is simple scaffolding around the core: it holds a position
//! and three small basis vectors (viewing direction, horizontal and
//! vertical extents of the view plane) and maps a pixel-plane coordinate,
//! given in `1/65536` units of the image, to a ray.  Deriving the basis
//! from a field of view is real-valued trigonometry and stays outside the
//! library.

use vstd::prelude::*;
use crate::ray::Ray;
use crate::vec3::Vec3;

verus! {

/// One image width or height in pixel-plane units.
pub const PLANE_ONE: u32 = 65536;

#[derive(Clone, Copy, Debug, PartialEq, Eq, Structural)]
pub struct Camera {
    pub position: Vec3,
    pub view_dir: Vec3,
    pub horizontal: Vec3,
    pub vertical: Vec3,
}

impl Camera {
    pub open spec fn wf(self) -> bool {
        &&& self.position.bounded(crate::vec3::COORD_MAX as int)
        &&& self.view_dir.bounded(10)
        &&& self.horizontal.bounded(10)
        &&& self.vertical.bounded(10)
    }

    pub fn new(position: Vec3, view_dir: Vec3, horizontal: Vec3, vertical: Vec3) -> (r: Camera)
        ensures
            r == (Camera { position, view_dir, horizontal, vertical }),
    {
        Camera { position, view_dir, horizontal, vertical }
    }

    /// The ray direction for the pixel-plane coordinate `(x, y)`: twice
    /// the conventional `view + horizontal*(x - 1/2) + vertical*(y - 1/2)`,
    /// kept exact by working in doubled plane units.
    pub open spec fn sdir(self, x: int, y: int, a: int) -> int {
        self.view_dir.saxis(a) * (2 * PLANE_ONE as int) + self.horizontal.saxis(a) * (2 * x
            - PLANE_ONE as int) + self.vertical.saxis(a) * (2 * y - PLANE_ONE as int)
    }

    /// The ray through a pixel-plane coordinate, as a value.
    pub open spec fn spec_ray(self, x: int, y: int) -> Ray {
        Ray {
            origin: self.position,
            direction: crate::vec3::vec_of3(
                (self.sdir(x, y, 0), self.sdir(x, y, 1), self.sdir(x, y, 2)),
            ),
        }
    }

    /// The ray from the camera through the pixel-plane coordinate.
    pub fn get_ray(&self, x: u32, y: u32) -> (r: Ray)
        requires
            self.wf(),
            x <= PLANE_ONE,
            y <= PLANE_ONE,
        ensures
            r == self.spec_ray(x as int, y as int),
            r.origin == self.position,
            r.direction.x == self.sdir(x as int, y as int, 0),
            r.direction.y == self.sdir(x as int, y as int, 1),
            r.direction.z == self.sdir(x as int, y as int, 2),
            r.wf(),
    {
        proof {
            crate::vec3::lemma_mul_bound(self.view_dir.x as int, 2 * PLANE_ONE as int, 10, 0x2_0000);
            crate::vec3::lemma_mul_bound(self.view_dir.y as int, 2 * PLANE_ONE as int, 10, 0x2_0000);
            crate::vec3::lemma_mul_bound(self.view_dir.z as int, 2 * PLANE_ONE as int, 10, 0x2_0000);
            crate::vec3::lemma_mul_bound(self.horizontal.x as int, 2 * x - PLANE_ONE as int, 10, 0x2_0000);
            crate::vec3::lemma_mul_bound(self.horizontal.y as int, 2 * x - PLANE_ONE as int, 10, 0x2_0000);
            crate::vec3::lemma_mul_bound(self.horizontal.z as int, 2 * x - PLANE_ONE as int, 10, 0x2_0000);
            crate::vec3::lemma_mul_bound(self.vertical.x as int, 2 * y - PLANE_ONE as int, 10, 0x2_0000);
            crate::vec3::lemma_mul_bound(self.vertical.y as int, 2 * y - PLANE_ONE as int, 10, 0x2_0000);
            crate::vec3::lemma_mul_bound(self.vertical.z as int, 2 * y - PLANE_ONE as int, 10, 0x2_0000);
        }
        let q2: i64 = 2 * (PLANE_ONE as i64);
        let hx: i64 = 2 * (x as i64) - (PLANE_ONE as i64);
        let hy: i64 = 2 * (y as i64) - (PLANE_ONE as i64);
        let v = self.view_dir.mul_scalar(q2);
        let h = self.horizontal.mul_scalar(hx);
        let u = self.vertical.mul_scalar(hy);
        let dir = v.add_v(h).add_v(u);
        Ray { origin: self.position, direction: dir }
    }
}

} // verus!
