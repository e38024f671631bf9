//! Planes, with the exact ray-plane intersection.
//!
//! A plane is infinite for intersection purposes; the stored width and
//! height only shape the axis-aligned bounding box, as a display aid.  For
//! that reason a plane's hits are not confined to its box, and scenes that
//! put planes under the acceleration tree lose the traversal-equals-scan
//! guarantee.

use vstd::prelude::*;
use crate::bounding_volume::BoundingVolume;
use crate::hit::HitData;
use crate::hit::div_floor;
use crate::hit::lemma_capped_point_range;
use crate::materials::Material;
use crate::rat::Tval;
use crate::rat::between_strict;
use crate::rat::capped;
use crate::ray::Ray;
use crate::vec3::COORD_MAX;
use crate::vec3::Vec3;
use crate::vec3::lemma_mul_bound;
use crate::vec3::sdot;

verus! {

#[derive(Clone, Copy, Debug, PartialEq, Eq, Structural)]
pub struct Plane {
    pub position: Vec3,
    pub normal: Vec3,
    pub width: i64,
    pub height: i64,
    pub material: Material,
}

impl Plane {
    pub open spec fn wf(self) -> bool {
        &&& self.position.bounded(COORD_MAX as int)
        &&& self.normal.bounded(COORD_MAX as int)
        &&& self.normal != (Vec3 { x: 0i64, y: 0i64, z: 0i64 })
        &&& 0 <= self.width <= COORD_MAX
        &&& 0 <= self.height <= COORD_MAX
        &&& self.material.wf()
    }

    /// Denominator of the intersection parameter before sign
    /// normalisation: `N . D`.
    pub open spec fn denom(self, ray: Ray) -> int {
        sdot(ray.direction, self.normal)
    }

    /// Numerator before sign normalisation: `N . (P0 - O)`.
    pub open spec fn numer(self, ray: Ray) -> int {
        self.normal.x * (self.position.x - ray.origin.x) + self.normal.y * (self.position.y
            - ray.origin.y) + self.normal.z * (self.position.z - ray.origin.z)
    }

    /// The returned parameter: `N . (P0 - O) / (N . D)` whenever the ray is
    /// not parallel to the plane and the value lies strictly within range.
    pub open spec fn hit_t(self, ray: Ray, t_min: Tval, t_max: Tval) -> Option<(int, int)> {
        let de = self.denom(ray);
        let nu = self.numer(ray);
        if de == 0 {
            Option::None
        } else {
            let n = if de > 0 {
                nu
            } else {
                -nu
            };
            let d = if de > 0 {
                de
            } else {
                -de
            };
            if between_strict(t_min, t_max, n, d) {
                Some((n, d))
            } else {
                Option::None
            }
        }
    }

    /// Creates a plane through the origin with the given facing.
    pub fn new(width: i64, height: i64, normal: Vec3, material: Material) -> (r: Plane)
        ensures
            r == (Plane {
                position: Vec3 { x: 0i64, y: 0i64, z: 0i64 },
                normal,
                width,
                height,
                material,
            }),
    {
        Plane { position: Vec3 { x: 0, y: 0, z: 0 }, normal, width, height, material }
    }

    pub fn get_position(&self) -> (r: Vec3)
        ensures
            r == self.position,
    {
        self.position
    }

    pub fn translate(&mut self, translation: Vec3)
        requires
            i64::MIN <= old(self).position.x + translation.x <= i64::MAX,
            i64::MIN <= old(self).position.y + translation.y <= i64::MAX,
            i64::MIN <= old(self).position.z + translation.z <= i64::MAX,
        ensures
            final(self).position.x == old(self).position.x + translation.x,
            final(self).position.y == old(self).position.y + translation.y,
            final(self).position.z == old(self).position.z + translation.z,
            final(self).normal == old(self).normal,
            final(self).width == old(self).width,
            final(self).height == old(self).height,
            final(self).material == old(self).material,
    {
        self.position = self.position.add_v(translation);
    }

    /// Intersect the ray with the (infinite) plane.
    pub fn hit(&self, ray: Ray, t_min: Tval, t_max: Tval) -> (h: HitData)
        requires
            self.wf(),
            ray.wf(),
            t_min.valid(),
            t_max.valid(),
            t_min.num >= 0,
            capped(t_max),
        ensures
            h.did_hit == self.hit_t(ray, t_min, t_max) is Some,
            !h.did_hit ==> h == HitData::spec_miss(),
            h.did_hit ==> crate::hit::hit_sane(h),
            h.did_hit ==> {
                &&& (h.t.num as int, h.t.den as int) == self.hit_t(ray, t_min, t_max).unwrap()
                &&& h.t.valid()
                &&& h.ray == ray
                &&& h.mat == self.material
                &&& h.normal == self.normal
                &&& h.hit_point.x == ray.at_scaled(h.t, 0) / (h.t.den as int)
                &&& h.hit_point.y == ray.at_scaled(h.t, 1) / (h.t.den as int)
                &&& h.hit_point.z == ray.at_scaled(h.t, 2) / (h.t.den as int)
            },
    {
        let de = ray.direction.dot(self.normal);
        let po = self.position.sub_v(ray.origin);
        let nu = self.normal.dot(po);
        proof {
            assert(de == self.denom(ray));
            assert(nu == self.numer(ray));
            lemma_mul_bound(ray.direction.x as int, self.normal.x as int, 0x40_0000, 0x1000);
            lemma_mul_bound(ray.direction.y as int, self.normal.y as int, 0x40_0000, 0x1000);
            lemma_mul_bound(ray.direction.z as int, self.normal.z as int, 0x40_0000, 0x1000);
            lemma_mul_bound(self.normal.x as int, po.x as int, 0x1000, 0x3000);
            lemma_mul_bound(self.normal.y as int, po.y as int, 0x1000, 0x3000);
            lemma_mul_bound(self.normal.z as int, po.z as int, 0x1000, 0x3000);
        }
        if de == 0 {
            return HitData::new();
        }
        let (n, d): (i128, i128) = if de > 0 {
            (nu, de)
        } else {
            (-nu, -de)
        };
        let t = Tval { num: n, den: d };
        if t_min.lt(t) && t.lt(t_max) {
            proof {
                crate::bounding_volume::lemma_slt_nonneg(t_min, t);
                crate::rat::lemma_capped_mono(t, t_max);
                lemma_capped_point_range(ray, t, 0);
                lemma_capped_point_range(ray, t, 1);
                lemma_capped_point_range(ray, t, 2);
            }
            let ax = plane_at_comp(ray.origin.x, ray.direction.x, t);
            let ay = plane_at_comp(ray.origin.y, ray.direction.y, t);
            let az = plane_at_comp(ray.origin.z, ray.direction.z, t);
            let px = div_floor(ax, t.den);
            let py = div_floor(ay, t.den);
            let pz = div_floor(az, t.den);
            let hit_point = Vec3 { x: px as i64, y: py as i64, z: pz as i64 };
            HitData { t, did_hit: true, ray, hit_point, normal: self.normal, mat: self.material }
        } else {
            HitData::new()
        }
    }

    /// The display box: the plane's patch when its facing is along a
    /// coordinate axis, a degenerate point at the position otherwise.
    pub open spec fn sbox(self) -> BoundingVolume {
        let hw = self.width as int / 2;
        let hh = self.height as int / 2;
        if self.normal.y == 0 && self.normal.z == 0 {
            BoundingVolume {
                min: Vec3 {
                    x: self.position.x,
                    y: (self.position.y - hh) as i64,
                    z: (self.position.z - hw) as i64,
                },
                max: Vec3 {
                    x: self.position.x,
                    y: (self.position.y + hh) as i64,
                    z: (self.position.z + hw) as i64,
                },
            }
        } else if self.normal.x == 0 && self.normal.y == 0 {
            BoundingVolume {
                min: Vec3 {
                    x: (self.position.x - hw) as i64,
                    y: (self.position.y - hh) as i64,
                    z: self.position.z,
                },
                max: Vec3 {
                    x: (self.position.x + hw) as i64,
                    y: (self.position.y + hh) as i64,
                    z: self.position.z,
                },
            }
        } else if self.normal.x == 0 && self.normal.z == 0 {
            BoundingVolume {
                min: Vec3 {
                    x: (self.position.x - hw) as i64,
                    y: self.position.y,
                    z: (self.position.z - hh) as i64,
                },
                max: Vec3 {
                    x: (self.position.x + hw) as i64,
                    y: self.position.y,
                    z: (self.position.z + hh) as i64,
                },
            }
        } else {
            BoundingVolume { min: self.position, max: self.position }
        }
    }

    /// An axis-aligned display box: the plane's patch when its facing is
    /// along a coordinate axis, a degenerate point at the position
    /// otherwise.
    pub fn get_bounding_vol(&self) -> (r: BoundingVolume)
        requires
            self.wf(),
        ensures
            r == self.sbox(),
            r.wf(),
    {
        let hw = ((self.width as u64) / 2) as i64;
        let hh = ((self.height as u64) / 2) as i64;
        let zero = Vec3 { x: 0, y: 0, z: 0 };
        let (lo, hi): (Vec3, Vec3) = if self.normal.y == 0 && self.normal.z == 0 {
            (Vec3 { x: 0, y: -hh, z: -hw }, Vec3 { x: 0, y: hh, z: hw })
        } else if self.normal.x == 0 && self.normal.y == 0 {
            (Vec3 { x: -hw, y: -hh, z: 0 }, Vec3 { x: hw, y: hh, z: 0 })
        } else if self.normal.x == 0 && self.normal.z == 0 {
            (Vec3 { x: -hw, y: 0, z: -hh }, Vec3 { x: hw, y: 0, z: hh })
        } else {
            (zero, zero)
        };
        BoundingVolume {
            min: self.position.add_v(lo),
            max: self.position.add_v(hi),
        }
    }
}

/// `o * t.den + t.num * d` for a capped parameter.
fn plane_at_comp(o: i64, d: i64, t: Tval) -> (r: i128)
    requires
        -0x2000 <= o <= 0x2000,
        -0x40_0000 <= d <= 0x40_0000,
        t.valid(),
        t.num >= 0,
        capped(t),
    ensures
        r == o * t.den + t.num * d,
        -0x8000_0000_0000_0000_0000_0000 < r < 0x8000_0000_0000_0000_0000_0000,
{
    proof {
        lemma_mul_bound(o as int, t.den as int, 0x2000, crate::rat::T_MAX as int);
        lemma_mul_bound(t.num as int, d as int, crate::rat::T_MAX as int, 0x40_0000);
    }
    (o as i128) * t.den + t.num * (d as i128)
}

} // verus!
