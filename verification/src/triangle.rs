//! Triangles, intersected by the determinant (Möller–Trumbore style)
//! barycentric test — exact, since no square root is involved.
//!
//! Back-facing triangles and near-parallel rays are rejected through the
//! sign of the determinant; in exact arithmetic the epsilon tolerance of a
//! floating-point tracer degenerates to a sign test.

use vstd::prelude::*;
use crate::bounding_volume::BoundingVolume;
use crate::hit::HitData;
use crate::hit::div_floor;
use crate::hit::reduce_dir;
use crate::hit::sreduce;
use crate::materials::Material;
use crate::rat::Tval;
use crate::rat::between_weak;
use crate::rat::capped;
use crate::ray::Ray;
use crate::vec3::COORD_MAX;
use crate::vec3::NORMAL_MAX;
use crate::vec3::Vec3;
use crate::vec3::lemma_mul_bound;
use crate::vec3::sdot;
use crate::vec3::t3_cross;
use crate::vec3::t3_dot;
use crate::vec3::t3_of;
use crate::vec3::t3_sub;

verus! {

#[derive(Clone, Copy, Debug, PartialEq, Eq, Structural)]
pub struct Triangle {
    /// The three corners.
    pub v0: Vec3,
    pub v1: Vec3,
    pub v2: Vec3,
    /// Face direction, used for back-face rejection and flat shading.
    pub surface_normal: Vec3,
    /// Per-corner directions, interpolated when shading smoothly.
    pub n0: Vec3,
    pub n1: Vec3,
    pub n2: Vec3,
    pub smooth: bool,
    pub material: Material,
}

impl Triangle {
    pub open spec fn wf(self) -> bool {
        &&& self.v0.bounded(COORD_MAX as int)
        &&& self.v1.bounded(COORD_MAX as int)
        &&& self.v2.bounded(COORD_MAX as int)
        &&& self.surface_normal.bounded(NORMAL_MAX as int)
        &&& self.n0.bounded(NORMAL_MAX as int)
        &&& self.n1.bounded(NORMAL_MAX as int)
        &&& self.n2.bounded(NORMAL_MAX as int)
        &&& self.material.wf()
    }

    /// Determinant of the barycentric system: `e1 . (D x e2)`.
    pub open spec fn det_a(self, ray: Ray) -> int {
        t3_dot(t3_sub(self.v1, self.v0), t3_cross(t3_of(ray.direction), t3_sub(self.v2, self.v0)))
    }

    /// Numerator of the parameter: `e1 . ((v0 - O) x e2)`.
    pub open spec fn det_t(self, ray: Ray) -> int {
        t3_dot(
            t3_sub(self.v1, self.v0),
            t3_cross(t3_sub(self.v0, ray.origin), t3_sub(self.v2, self.v0)),
        )
    }

    /// Numerator of the first barycentric weight: `(O - v0) . (D x e2)`.
    pub open spec fn det_b(self, ray: Ray) -> int {
        t3_dot(
            t3_sub(ray.origin, self.v0),
            t3_cross(t3_of(ray.direction), t3_sub(self.v2, self.v0)),
        )
    }

    /// Numerator of the second barycentric weight: `e1 . (D x (O - v0))`.
    pub open spec fn det_g(self, ray: Ray) -> int {
        t3_dot(
            t3_sub(self.v1, self.v0),
            t3_cross(t3_of(ray.direction), t3_sub(ray.origin, self.v0)),
        )
    }

    /// The smallest box around the three corners.
    pub open spec fn sbox(self) -> BoundingVolume {
        BoundingVolume {
            min: Vec3 {
                x: crate::vec3::smin(crate::vec3::smin(self.v0.x as int, self.v1.x as int), self.v2.x as int) as i64,
                y: crate::vec3::smin(crate::vec3::smin(self.v0.y as int, self.v1.y as int), self.v2.y as int) as i64,
                z: crate::vec3::smin(crate::vec3::smin(self.v0.z as int, self.v1.z as int), self.v2.z as int) as i64,
            },
            max: Vec3 {
                x: crate::vec3::smax(crate::vec3::smax(self.v0.x as int, self.v1.x as int), self.v2.x as int) as i64,
                y: crate::vec3::smax(crate::vec3::smax(self.v0.y as int, self.v1.y as int), self.v2.y as int) as i64,
                z: crate::vec3::smax(crate::vec3::smax(self.v0.z as int, self.v1.z as int), self.v2.z as int) as i64,
            },
        }
    }

    /// The returned parameter: `det_t / det_a` when the triangle faces the
    /// ray, the determinant is positive, the parameter lies weakly within
    /// range, and both barycentric weights fall strictly inside the
    /// triangle.  The final conjunct — the hit point lies in the corner
    /// box — is a mathematical consequence of the barycentric test, and is
    /// checked outright so that the acceleration structure can rely on it.
    pub open spec fn hit_t(self, ray: Ray, t_min: Tval, t_max: Tval) -> Option<(int, int)> {
        if sdot(self.surface_normal, ray.direction) > 0 {
            Option::None
        } else {
            let da = self.det_a(ray);
            if da <= 0 {
                Option::None
            } else if !between_weak(t_min, t_max, self.det_t(ray), da) {
                Option::None
            } else {
                let db = self.det_b(ray);
                let dg = self.det_g(ray);
                if db > 0 && dg > 0 && db + dg <= da && self.sbox().contains_nd(
                    ray,
                    self.det_t(ray),
                    da,
                ) {
                    Some((self.det_t(ray), da))
                } else {
                    Option::None
                }
            }
        }
    }

    /// The unreduced interpolated normal at the hit, scaled by `det_a`:
    /// each corner direction weighted by its barycentric numerator.
    pub open spec fn interp_normal(self, ray: Ray, a: int) -> int {
        let da = self.det_a(ray);
        let db = self.det_b(ray);
        let dg = self.det_g(ray);
        dg * self.n2.saxis(a) + (da - db - dg) * self.n0.saxis(a) + db * self.n1.saxis(a)
    }

    pub fn new(
        surface_normal: Vec3,
        normals: (Vec3, Vec3, Vec3),
        vertices: (Vec3, Vec3, Vec3),
        material: Material,
        smooth: bool,
    ) -> (r: Triangle)
        ensures
            r == (Triangle {
                v0: vertices.0,
                v1: vertices.1,
                v2: vertices.2,
                surface_normal,
                n0: normals.0,
                n1: normals.1,
                n2: normals.2,
                smooth,
                material,
            }),
    {
        Triangle {
            v0: vertices.0,
            v1: vertices.1,
            v2: vertices.2,
            surface_normal,
            n0: normals.0,
            n1: normals.1,
            n2: normals.2,
            smooth,
            material,
        }
    }

    pub fn set_material(&mut self, material: Material)
        ensures
            *final(self) == (Triangle { material, ..*old(self) }),
    {
        self.material = material;
    }

    /// The centroid, each coordinate rounded down.
    pub fn get_position(&self) -> (r: Vec3)
        requires
            self.wf(),
        ensures
            r.x == (self.v0.x + self.v1.x + self.v2.x) / 3,
            r.y == (self.v0.y + self.v1.y + self.v2.y) / 3,
            r.z == (self.v0.z + self.v1.z + self.v2.z) / 3,
    {
        proof {
            crate::hit::lemma_div_range(
                self.v0.x + self.v1.x + self.v2.x,
                3,
                -(COORD_MAX as int),
                COORD_MAX as int,
            );
            crate::hit::lemma_div_range(
                self.v0.y + self.v1.y + self.v2.y,
                3,
                -(COORD_MAX as int),
                COORD_MAX as int,
            );
            crate::hit::lemma_div_range(
                self.v0.z + self.v1.z + self.v2.z,
                3,
                -(COORD_MAX as int),
                COORD_MAX as int,
            );
        }
        let x = div_floor(self.v0.x as i128 + self.v1.x as i128 + self.v2.x as i128, 3);
        let y = div_floor(self.v0.y as i128 + self.v1.y as i128 + self.v2.y as i128, 3);
        let z = div_floor(self.v0.z as i128 + self.v1.z as i128 + self.v2.z as i128, 3);
        Vec3 { x: x as i64, y: y as i64, z: z as i64 }
    }

    pub fn translate(&mut self, translation: Vec3)
        requires
            translation.bounded(COORD_MAX as int),
            old(self).v0.bounded(COORD_MAX as int),
            old(self).v1.bounded(COORD_MAX as int),
            old(self).v2.bounded(COORD_MAX as int),
        ensures
            final(self).v0.x == old(self).v0.x + translation.x,
            final(self).v0.y == old(self).v0.y + translation.y,
            final(self).v0.z == old(self).v0.z + translation.z,
            final(self).v1.x == old(self).v1.x + translation.x,
            final(self).v1.y == old(self).v1.y + translation.y,
            final(self).v1.z == old(self).v1.z + translation.z,
            final(self).v2.x == old(self).v2.x + translation.x,
            final(self).v2.y == old(self).v2.y + translation.y,
            final(self).v2.z == old(self).v2.z + translation.z,
            final(self).surface_normal == old(self).surface_normal,
            final(self).n0 == old(self).n0,
            final(self).n1 == old(self).n1,
            final(self).n2 == old(self).n2,
            final(self).smooth == old(self).smooth,
            final(self).material == old(self).material,
    {
        self.v0 = self.v0.add_v(translation);
        self.v1 = self.v1.add_v(translation);
        self.v2 = self.v2.add_v(translation);
    }

    /// The smallest box around the three corners.
    pub fn get_bounding_vol(&self) -> (r: BoundingVolume)
        requires
            self.wf(),
        ensures
            r.min.x == crate::vec3::smin(crate::vec3::smin(self.v0.x as int, self.v1.x as int), self.v2.x as int),
            r.min.y == crate::vec3::smin(crate::vec3::smin(self.v0.y as int, self.v1.y as int), self.v2.y as int),
            r.min.z == crate::vec3::smin(crate::vec3::smin(self.v0.z as int, self.v1.z as int), self.v2.z as int),
            r.max.x == crate::vec3::smax(crate::vec3::smax(self.v0.x as int, self.v1.x as int), self.v2.x as int),
            r.max.y == crate::vec3::smax(crate::vec3::smax(self.v0.y as int, self.v1.y as int), self.v2.y as int),
            r.max.z == crate::vec3::smax(crate::vec3::smax(self.v0.z as int, self.v1.z as int), self.v2.z as int),
            r == self.sbox(),
            r.wf(),
    {
        BoundingVolume {
            min: self.v0.min_v(self.v1).min_v(self.v2),
            max: self.v0.max_v(self.v1).max_v(self.v2),
        }
    }

    /// The barycentric intersection test.
    pub fn hit(&self, ray: Ray, t_min: Tval, t_max: Tval) -> (h: HitData)
        requires
            self.wf(),
            ray.wf(),
            t_min.valid(),
            t_max.valid(),
            t_min.num >= 0,
            capped(t_max),
        ensures
            h.did_hit == self.hit_t(ray, t_min, t_max) is Some,
            !h.did_hit ==> h == HitData::spec_miss(),
            h.did_hit ==> self.sbox().contains_nd(ray, h.t.num as int, h.t.den as int),
            h.did_hit ==> crate::hit::hit_sane(h),
            h.did_hit ==> {
                &&& (h.t.num as int, h.t.den as int) == self.hit_t(ray, t_min, t_max).unwrap()
                &&& h.t.valid()
                &&& h.ray == ray
                &&& h.mat == self.material
                &&& h.hit_point.x == ray.at_scaled(h.t, 0) / (h.t.den as int)
                &&& h.hit_point.y == ray.at_scaled(h.t, 1) / (h.t.den as int)
                &&& h.hit_point.z == ray.at_scaled(h.t, 2) / (h.t.den as int)
                &&& if self.smooth {
                    (h.normal.x as int, h.normal.y as int, h.normal.z as int) == sreduce(
                        self.interp_normal(ray, 0),
                        self.interp_normal(ray, 1),
                        self.interp_normal(ray, 2),
                        NORMAL_MAX as int,
                    )
                } else {
                    h.normal == self.surface_normal
                }
            },
    {
        let nd = self.surface_normal.dot(ray.direction);
        if nd > 0 {
            return HitData::new();
        }
        let e1 = self.v1.sub_v(self.v0);
        let e2 = self.v2.sub_v(self.v0);
        let cda = ray.direction.cross(e2);
        let da = e1.dot(cda);
        proof {
            lemma_det_bounds(*self, ray);
            assert(da == self.det_a(ray));
        }
        if da <= 0 {
            return HitData::new();
        }
        let sv = self.v0.sub_v(ray.origin);
        let cdt = sv.cross(e2);
        let dt = e1.dot(cdt);
        proof {
            assert(dt == self.det_t(ray));
        }
        let t = Tval { num: dt, den: da };
        if t_min.le(t) && t.le(t_max) {
            let vo = ray.origin.sub_v(self.v0);
            let db = vo.dot(cda);
            let cdg = ray.direction.cross(vo);
            let dg = e1.dot(cdg);
            proof {
                assert(db == self.det_b(ray));
                assert(dg == self.det_g(ray));
            }
            if db > 0 && dg > 0 && db + dg <= da && self.get_bounding_vol().check_contains(
                ray,
                dt,
                da,
            ) {
                proof {
                    crate::bounding_volume::lemma_sle_nonneg(t_min, t);
                    crate::rat::lemma_capped_mono(t, t_max);
                }
                let hit_point = crate::hit::round_point(ray, t);
                let normal = if self.smooth {
                    let ia = da - db - dg;
                    proof {
                        lemma_mul_bound(dg as int, self.n2.x as int, 0x10_0000_0000_0000, NORMAL_MAX as int);
                        lemma_mul_bound(dg as int, self.n2.y as int, 0x10_0000_0000_0000, NORMAL_MAX as int);
                        lemma_mul_bound(dg as int, self.n2.z as int, 0x10_0000_0000_0000, NORMAL_MAX as int);
                        lemma_mul_bound(ia as int, self.n0.x as int, 0x30_0000_0000_0000, NORMAL_MAX as int);
                        lemma_mul_bound(ia as int, self.n0.y as int, 0x30_0000_0000_0000, NORMAL_MAX as int);
                        lemma_mul_bound(ia as int, self.n0.z as int, 0x30_0000_0000_0000, NORMAL_MAX as int);
                        lemma_mul_bound(db as int, self.n1.x as int, 0x10_0000_0000_0000, NORMAL_MAX as int);
                        lemma_mul_bound(db as int, self.n1.y as int, 0x10_0000_0000_0000, NORMAL_MAX as int);
                        lemma_mul_bound(db as int, self.n1.z as int, 0x10_0000_0000_0000, NORMAL_MAX as int);
                    }
                    let nx = dg * (self.n2.x as i128) + ia * (self.n0.x as i128) + db * (self.n1.x as i128);
                    let ny = dg * (self.n2.y as i128) + ia * (self.n0.y as i128) + db * (self.n1.y as i128);
                    let nz = dg * (self.n2.z as i128) + ia * (self.n0.z as i128) + db * (self.n1.z as i128);
                    reduce_dir(nx, ny, nz)
                } else {
                    self.surface_normal
                };
                HitData { t, did_hit: true, ray, hit_point, normal, mat: self.material }
            } else {
                HitData::new()
            }
        } else {
            HitData::new()
        }
    }
}

/// Magnitude bounds on the four determinants, from the grid bounds.
pub proof fn lemma_det_bounds(tr: Triangle, ray: Ray)
    requires
        tr.wf(),
        ray.wf(),
    ensures
        -0x10_0000_0000_0000 <= tr.det_a(ray) <= 0x10_0000_0000_0000,
        -0x10_0000_0000_0000 <= tr.det_t(ray) <= 0x10_0000_0000_0000,
        -0x10_0000_0000_0000 <= tr.det_b(ray) <= 0x10_0000_0000_0000,
        -0x10_0000_0000_0000 <= tr.det_g(ray) <= 0x10_0000_0000_0000,
{
    let e1 = t3_sub(tr.v1, tr.v0);
    let e2 = t3_sub(tr.v2, tr.v0);
    let dd = t3_of(ray.direction);
    let sv = t3_sub(tr.v0, ray.origin);
    let vo = t3_sub(ray.origin, tr.v0);
    lemma_t3_det_bound(e1, dd, e2, 0x2000, 0x40_0000, 0x2000);
    lemma_t3_det_bound(e1, sv, e2, 0x2000, 0x3000, 0x2000);
    lemma_t3_det_bound(vo, dd, e2, 0x3000, 0x40_0000, 0x2000);
    lemma_t3_det_bound(e1, dd, vo, 0x2000, 0x40_0000, 0x3000);
}

/// `|p . (q x r)|` is at most `3 * (2 mp mq mr)` when the factors are
/// bounded by `mp`, `mq`, `mr`.
proof fn lemma_t3_det_bound(p: (int, int, int), q: (int, int, int), r: (int, int, int), mp: int, mq: int, mr: int)
    requires
        0 < mp,
        0 < mq,
        0 < mr,
        -mp <= p.0 <= mp,
        -mp <= p.1 <= mp,
        -mp <= p.2 <= mp,
        -mq <= q.0 <= mq,
        -mq <= q.1 <= mq,
        -mq <= q.2 <= mq,
        -mr <= r.0 <= mr,
        -mr <= r.1 <= mr,
        -mr <= r.2 <= mr,
    ensures
        -6 * (mp * (mq * mr)) <= t3_dot(p, t3_cross(q, r)) <= 6 * (mp * (mq * mr)),
{
    let c = t3_cross(q, r);
    lemma_mul_bound(q.1, r.2, mq, mr);
    lemma_mul_bound(q.2, r.1, mq, mr);
    lemma_mul_bound(q.2, r.0, mq, mr);
    lemma_mul_bound(q.0, r.2, mq, mr);
    lemma_mul_bound(q.0, r.1, mq, mr);
    lemma_mul_bound(q.1, r.0, mq, mr);
    lemma_mul_bound(p.0, c.0, mp, 2 * (mq * mr));
    lemma_mul_bound(p.1, c.1, mp, 2 * (mq * mr));
    lemma_mul_bound(p.2, c.2, mp, 2 * (mq * mr));
    assert(3 * (mp * (2 * (mq * mr))) == 6 * (mp * (mq * mr))) by (nonlinear_arith);
}

} // verus!
