//! Spheres, with the quadratic intersection solver.
//!
//! The solver works on the exact discriminant; the square root is the
//! integer square root, so the returned parameter is the floor-rounded
//! root.  Because the rounded root still lies between the two real roots,
//! the hit point provably stays inside the sphere — and therefore inside
//! the sphere's bounding box, which is what the traversal equivalence
//! proof needs.

use vstd::prelude::*;
use vstd::arithmetic::div_mod::lemma_div_is_ordered;
use vstd::arithmetic::div_mod::lemma_div_multiples_vanish;
use crate::bounding_volume::BoundingVolume;
use crate::hit::HitData;
use crate::hit::div_floor;
use crate::hit::reduce_dir;
use crate::hit::sreduce;
use crate::materials::Material;
use crate::rat::Tval;
use crate::rat::between_strict;
use crate::rat::isqrt;
use crate::rat::sqrt_floor;
use crate::ray::Ray;
use crate::vec3::COORD_MAX;
use crate::vec3::NORMAL_MAX;
use crate::vec3::Vec3;
use crate::vec3::lemma_mul_bound;
use crate::vec3::sdot;

verus! {

#[derive(Clone, Copy, Debug, PartialEq, Eq, Structural)]
pub struct Sphere {
    pub position: Vec3,
    pub radius: i64,
    pub material: Material,
}

impl Sphere {
    pub open spec fn wf(self) -> bool {
        &&& self.position.bounded(COORD_MAX as int)
        &&& 1 <= self.radius <= COORD_MAX
        &&& self.material.wf()
    }

    /// Quadratic coefficient `a = D . D`.
    pub open spec fn qa(self, ray: Ray) -> int {
        sdot(ray.direction, ray.direction)
    }

    /// Quadratic coefficient `b = 2 D . (O - C)`.
    pub open spec fn qb(self, ray: Ray) -> int {
        2 * (ray.direction.x * (ray.origin.x - self.position.x) + ray.direction.y * (
        ray.origin.y - self.position.y) + ray.direction.z * (ray.origin.z - self.position.z))
    }

    /// Quadratic coefficient `c = |O - C|^2 - r^2`.
    pub open spec fn qc(self, ray: Ray) -> int {
        (ray.origin.x - self.position.x) * (ray.origin.x - self.position.x) + (ray.origin.y
            - self.position.y) * (ray.origin.y - self.position.y) + (ray.origin.z
            - self.position.z) * (ray.origin.z - self.position.z) - self.radius * self.radius
    }

    pub open spec fn disc(self, ray: Ray) -> int {
        self.qb(ray) * self.qb(ray) - 4 * self.qa(ray) * self.qc(ray)
    }

    /// Denominator of every parameter this solver returns.
    pub open spec fn hit_den(self, ray: Ray) -> int {
        2 * self.qa(ray)
    }

    /// Numerator of the returned parameter: the smaller root if it lies
    /// strictly inside `(t_min, t_max)`, else the larger root if it does,
    /// else nothing.  Tangent rays (zero discriminant) hit nothing.
    pub open spec fn hit_num(self, ray: Ray, t_min: Tval, t_max: Tval) -> Option<int> {
        if self.disc(ray) > 0 && self.qa(ray) > 0 {
            let s = sqrt_floor(self.disc(ray));
            let n0 = -self.qb(ray) - s;
            let n1 = -self.qb(ray) + s;
            let d = self.hit_den(ray);
            if between_strict(t_min, t_max, n0, d) {
                Some(n0)
            } else if between_strict(t_min, t_max, n1, d) {
                Some(n1)
            } else {
                Option::None
            }
        } else {
            Option::None
        }
    }

    /// Squared distance from the point of `ray` at `t` to the center,
    /// scaled by `t.den^2`.
    pub open spec fn dist2_scaled(self, ray: Ray, t: Tval) -> int {
        let px = ray.at_scaled(t, 0) - self.position.x * t.den;
        let py = ray.at_scaled(t, 1) - self.position.y * t.den;
        let pz = ray.at_scaled(t, 2) - self.position.z * t.den;
        px * px + py * py + pz * pz
    }

    pub fn new(radius: i64, material: Material) -> (r: Sphere)
        ensures
            r == (Sphere { position: Vec3 { x: 0i64, y: 0i64, z: 0i64 }, radius, material }),
    {
        Sphere { position: Vec3 { x: 0, y: 0, z: 0 }, radius, material }
    }

    pub fn get_position(&self) -> (r: Vec3)
        ensures
            r == self.position,
    {
        self.position
    }

    pub fn set_material(&mut self, material: Material)
        ensures
            *final(self) == (Sphere { material, ..*old(self) }),
    {
        self.material = material;
    }

    pub fn translate(&mut self, translation: Vec3)
        requires
            i64::MIN <= old(self).position.x + translation.x <= i64::MAX,
            i64::MIN <= old(self).position.y + translation.y <= i64::MAX,
            i64::MIN <= old(self).position.z + translation.z <= i64::MAX,
        ensures
            final(self).position.x == old(self).position.x + translation.x,
            final(self).position.y == old(self).position.y + translation.y,
            final(self).position.z == old(self).position.z + translation.z,
            final(self).radius == old(self).radius,
            final(self).material == old(self).material,
    {
        self.position = self.position.add_v(translation);
    }

    /// Scaling a sphere replaces its radius, and only when the scale is
    /// uniform.
    pub fn scale(&mut self, scale: Vec3)
        ensures
            *final(self) == if scale.x == scale.y && scale.y == scale.z {
                Sphere { radius: scale.x, ..*old(self) }
            } else {
                *old(self)
            },
    {
        if scale.x == scale.y && scale.y == scale.z {
            self.radius = scale.x;
        }
    }

    /// The box `[C - r, C + r]`.
    pub fn get_bounding_vol(&self) -> (r: BoundingVolume)
        requires
            self.wf(),
        ensures
            r.min.x == self.position.x - self.radius,
            r.min.y == self.position.y - self.radius,
            r.min.z == self.position.z - self.radius,
            r.max.x == self.position.x + self.radius,
            r.max.y == self.position.y + self.radius,
            r.max.z == self.position.z + self.radius,
            r.wf(),
    {
        BoundingVolume {
            min: Vec3 {
                x: self.position.x - self.radius,
                y: self.position.y - self.radius,
                z: self.position.z - self.radius,
            },
            max: Vec3 {
                x: self.position.x + self.radius,
                y: self.position.y + self.radius,
                z: self.position.z + self.radius,
            },
        }
    }

    /// Solve the quadratic and report the closest admissible root.
    pub fn hit(&self, ray: Ray, t_min: Tval, t_max: Tval) -> (h: HitData)
        requires
            self.wf(),
            ray.wf(),
            t_min.valid(),
            t_max.valid(),
        ensures
            h.did_hit == self.hit_num(ray, t_min, t_max) is Some,
            !h.did_hit ==> h == HitData::spec_miss(),
            h.did_hit ==> crate::hit::hit_sane(h),
            h.did_hit ==> {
                &&& h.t.num == self.hit_num(ray, t_min, t_max).unwrap()
                &&& h.t.den == self.hit_den(ray)
                &&& h.t.valid()
                &&& h.ray == ray
                &&& h.mat == self.material
                &&& h.hit_point.x == ray.at_scaled(h.t, 0) / (h.t.den as int)
                &&& h.hit_point.y == ray.at_scaled(h.t, 1) / (h.t.den as int)
                &&& h.hit_point.z == ray.at_scaled(h.t, 2) / (h.t.den as int)
                &&& (h.normal.x as int, h.normal.y as int, h.normal.z as int) == sreduce(
                    ray.at_scaled(h.t, 0) - self.position.x * h.t.den,
                    ray.at_scaled(h.t, 1) - self.position.y * h.t.den,
                    ray.at_scaled(h.t, 2) - self.position.z * h.t.den,
                    NORMAL_MAX as int,
                )
            },
    {
        let oc = ray.origin.sub_v(self.position);
        let a = ray.direction.dot(ray.direction);
        let b = 2 * ray.direction.dot(oc);
        proof {
            lemma_coeff_bounds(*self, ray);
            assert(a == self.qa(ray));
            assert(b == self.qb(ray));
            lemma_mul_bound(self.radius as int, self.radius as int, COORD_MAX as int, COORD_MAX as int);
        }
        let rr = (self.radius as i128) * (self.radius as i128);
        let c = oc.dot(oc) - rr;
        proof {
            assert(c == self.qc(ray));
            lemma_mul_bound(b as int, b as int, 0x80_0000_0000, 0x80_0000_0000);
            lemma_mul_bound(4 * a as int, c as int, 0xC000_0000_0000, 0x2000_0000);
        }
        let disc = b * b - 4 * a * c;
        if disc > 0 {
            proof {
                lemma_qa_pos(*self, ray);
            }
            let s = isqrt(disc);
            proof {
                assert(s < 0x100_0000_0000) by (nonlinear_arith)
                    requires
                        0 <= s,
                        (s as int) * (s as int) <= disc,
                        disc < 0x1_0000_0000_0000_0000_0000,
                ;
            }
            let den = 2 * a;
            let n0 = -b - s;
            let n1 = -b + s;
            let t0 = Tval { num: n0, den };
            let t1 = Tval { num: n1, den };
            let pick0 = t_min.lt(t0) && t0.lt(t_max);
            let pick1 = t_min.lt(t1) && t1.lt(t_max);
            if pick0 || pick1 {
                let t = if pick0 {
                    t0
                } else {
                    t1
                };
                proof {
                    lemma_sphere_root_in_bbox(*self, ray, t);
                }
                let ax = at_comp(ray.origin.x, ray.direction.x, t);
                let ay = at_comp(ray.origin.y, ray.direction.y, t);
                let az = at_comp(ray.origin.z, ray.direction.z, t);
                let px = div_floor(ax, t.den);
                let py = div_floor(ay, t.den);
                let pz = div_floor(az, t.den);
                proof {
                    lemma_point_round_bounds(*self, ray, t);
                }
                let hit_point = Vec3 { x: px as i64, y: py as i64, z: pz as i64 };
                proof {
                    lemma_mul_bound(self.position.x as int, t.den as int, COORD_MAX as int, crate::rat::T_MAX as int);
                    lemma_mul_bound(self.position.y as int, t.den as int, COORD_MAX as int, crate::rat::T_MAX as int);
                    lemma_mul_bound(self.position.z as int, t.den as int, COORD_MAX as int, crate::rat::T_MAX as int);
                }
                let cd = self.position.x as i128 * t.den;
                let cdy = self.position.y as i128 * t.den;
                let cdz = self.position.z as i128 * t.den;
                let normal = reduce_dir(ax - cd, ay - cdy, az - cdz);
                HitData { t, did_hit: true, ray, hit_point, normal, mat: self.material }
            } else {
                HitData::new()
            }
        } else {
            HitData::new()
        }
    }
}

/// `o * t.den + t.num * d` as an exec value.
fn at_comp(o: i64, d: i64, t: Tval) -> (r: i128)
    requires
        -0x4000 <= o <= 0x4000,
        -0x40_0000 <= d <= 0x40_0000,
        t.valid(),
        -0x1_0000_0000_0000 <= t.num <= 0x1_0000_0000_0000,
    ensures
        r == o * t.den + t.num * d,
        -0x2_0000_0000_0000_0000_0000 <= r <= 0x2_0000_0000_0000_0000_0000,
{
    proof {
        lemma_mul_bound(o as int, t.den as int, 0x4000, crate::rat::T_MAX as int);
        lemma_mul_bound(t.num as int, d as int, 0x1_0000_0000_0000, 0x40_0000);
    }
    (o as i128) * t.den + t.num * (d as i128)
}

/// A positive discriminant forces a nonzero direction, hence `a > 0`.
proof fn lemma_qa_pos(s: Sphere, ray: Ray)
    requires
        s.disc(ray) > 0,
    ensures
        s.qa(ray) > 0,
{
    let dx = ray.direction.x as int;
    let dy = ray.direction.y as int;
    let dz = ray.direction.z as int;
    assert(s.qa(ray) >= 0) by (nonlinear_arith)
        requires
            s.qa(ray) == dx * dx + dy * dy + dz * dz,
    ;
    if s.qa(ray) == 0 {
        assert(dx == 0 && dy == 0 && dz == 0) by (nonlinear_arith)
            requires
                dx * dx + dy * dy + dz * dz == 0,
        ;
        assert(s.qb(ray) == 0);
        assert(s.disc(ray) == 0) by (nonlinear_arith)
            requires
                s.qb(ray) == 0,
                s.qa(ray) == 0,
                s.disc(ray) == s.qb(ray) * s.qb(ray) - 4 * s.qa(ray) * s.qc(ray),
        ;
    }
}

/// Both floor-rounded roots of the quadratic lie between the two real
/// roots, so the squared distance of the point at the returned parameter
/// from the center is at most `r^2` (scaled); it equals `r^2` exactly when
/// the discriminant is a perfect square.
pub proof fn lemma_sphere_root_dist(s: Sphere, ray: Ray, t: Tval)
    requires
        s.disc(ray) > 0,
        s.qa(ray) > 0,
        t.den == s.hit_den(ray),
        t.num == -s.qb(ray) - sqrt_floor(s.disc(ray)) || t.num == -s.qb(ray) + sqrt_floor(
            s.disc(ray),
        ),
    ensures
        s.dist2_scaled(ray, t) <= s.radius * s.radius * t.den * t.den,
        s.dist2_scaled(ray, t) == s.radius * s.radius * (t.den * t.den) + s.qa(ray) * (
        sqrt_floor(s.disc(ray)) * sqrt_floor(s.disc(ray)) - s.disc(ray)),
        sqrt_floor(s.disc(ray)) * sqrt_floor(s.disc(ray)) == s.disc(ray)
            ==> s.dist2_scaled(ray, t) == s.radius * s.radius * t.den * t.den,
{
    let a = s.qa(ray);
    let b = s.qb(ray);
    let c = s.qc(ray);
    let disc = s.disc(ray);
    let sq = sqrt_floor(disc);
    let n = t.num as int;
    let d = t.den as int;
    crate::rat::lemma_sqrt_floor_exists(disc);
    // The key rearrangement: 4a * (quadratic at n/d) in terms of sq^2 - disc.
    let q = a * n * n + b * n * d + c * d * d;
    lemma_complete_square(a, b, c, d, n);
    assert((2 * a * n + b * d) * (2 * a * n + b * d) == 4 * a * a * (sq * sq)) by (nonlinear_arith)
        requires
            d == 2 * a,
            n == -b - sq || n == -b + sq,
    ;
    assert(4 * a * q == 4 * a * a * (sq * sq - disc)) by (nonlinear_arith)
        requires
            4 * a * q == (2 * a * n + b * d) * (2 * a * n + b * d) - (b * b - 4 * a * c) * (d * d),
            (2 * a * n + b * d) * (2 * a * n + b * d) == 4 * a * a * (sq * sq),
            disc == b * b - 4 * a * c,
            d == 2 * a,
    ;
    // The squared scaled distance is q + r^2 d^2.
    let ox = ray.origin.x as int;
    let oy = ray.origin.y as int;
    let oz = ray.origin.z as int;
    let dx = ray.direction.x as int;
    let dy = ray.direction.y as int;
    let dz = ray.direction.z as int;
    let cx = s.position.x as int;
    let cy = s.position.y as int;
    let cz = s.position.z as int;
    let r = s.radius as int;
    let ux = ox - cx;
    let uy = oy - cy;
    let uz = oz - cz;
    assert(ray.at_scaled(t, 0) - cx * d == ux * d + n * dx) by (nonlinear_arith)
        requires
            ray.at_scaled(t, 0) == ox * d + n * dx,
            ux == ox - cx,
    ;
    assert(ray.at_scaled(t, 1) - cy * d == uy * d + n * dy) by (nonlinear_arith)
        requires
            ray.at_scaled(t, 1) == oy * d + n * dy,
            uy == oy - cy,
    ;
    assert(ray.at_scaled(t, 2) - cz * d == uz * d + n * dz) by (nonlinear_arith)
        requires
            ray.at_scaled(t, 2) == oz * d + n * dz,
            uz == oz - cz,
    ;
    lemma_dist2_expand(ux, uy, uz, dx, dy, dz, n, d);
    assert(s.dist2_scaled(ray, t) == (dx * dx + dy * dy + dz * dz) * (n * n) + (2 * (dx * ux
        + dy * uy + dz * uz)) * (n * d) + (ux * ux + uy * uy + uz * uz) * (d * d));
    assert(s.dist2_scaled(ray, t) == q + r * r * (d * d)) by (nonlinear_arith)
        requires
            s.dist2_scaled(ray, t) == a * (n * n) + b * (n * d) + (c + r * r) * (d * d),
            q == a * n * n + b * n * d + c * d * d,
    ;
    assert(q <= 0 && q == a * (sq * sq - disc) && (sq * sq == disc ==> q == 0))
        by (nonlinear_arith)
        requires
            4 * a * q == 4 * a * a * (sq * sq - disc),
            a > 0,
            sq * sq <= disc,
    ;
    assert(s.radius * s.radius * t.den * t.den == r * r * (d * d)) by (nonlinear_arith)
        requires
            r == s.radius,
            d == t.den,
    ;
}

/// `(u + v)^2` expanded.
proof fn lemma_binomial(u: int, v: int)
    by (nonlinear_arith)
    ensures
        (u + v) * (u + v) == u * u + 2 * (u * v) + v * v,
{
}

/// Regrouped products of the pieces of the completed square.
proof fn lemma_square_pieces(a: int, b: int, d: int, n: int, u: int, v: int)
    by (nonlinear_arith)
    requires
        u == 2 * a * n,
        v == b * d,
    ensures
        u * u == 4 * (a * a) * (n * n),
        2 * (u * v) == 4 * ((a * b) * (n * d)),
        v * v == (b * b) * (d * d),
{
}

/// `4a` distributed over a three-term sum.
proof fn lemma_distribute_4a(a: int, x: int, y: int, z: int)
    by (nonlinear_arith)
    ensures
        4 * a * (x + y + z) == 4 * a * x + 4 * a * y + 4 * a * z,
{
}

/// Regrouping of the three distributed quadratic terms.
proof fn lemma_regroup_terms(a: int, b: int, c: int, d: int, n: int)
    by (nonlinear_arith)
    ensures
        4 * a * (a * n * n) == 4 * (a * a) * (n * n),
        4 * a * (b * n * d) == 4 * ((a * b) * (n * d)),
        4 * a * (c * d * d) == 4 * ((a * c) * (d * d)),
{
}

/// `d^2` distributed over the discriminant.
proof fn lemma_distribute_disc(a: int, b: int, c: int, d: int)
    by (nonlinear_arith)
    ensures
        (b * b - 4 * a * c) * (d * d) == (b * b) * (d * d) - 4 * ((a * c) * (d * d)),
{
}

/// Distributing `4a` over the quadratic, and `d^2` over the discriminant.
proof fn lemma_square_distribute(a: int, b: int, c: int, d: int, n: int)
    ensures
        4 * a * (a * n * n + b * n * d + c * d * d) == 4 * (a * a) * (n * n) + 4 * ((a * b) * (n
            * d)) + 4 * ((a * c) * (d * d)),
        (b * b - 4 * a * c) * (d * d) == (b * b) * (d * d) - 4 * ((a * c) * (d * d)),
{
    lemma_distribute_4a(a, a * n * n, b * n * d, c * d * d);
    lemma_regroup_terms(a, b, c, d, n);
    lemma_distribute_disc(a, b, c, d);
}

/// Completing the square: `4a` times the quadratic evaluated at `n/d`.
proof fn lemma_complete_square(a: int, b: int, c: int, d: int, n: int)
    ensures
        4 * a * (a * n * n + b * n * d + c * d * d) == (2 * a * n + b * d) * (2 * a * n + b * d)
            - (b * b - 4 * a * c) * (d * d),
{
    let u = 2 * a * n;
    let v = b * d;
    lemma_binomial(u, v);
    lemma_square_pieces(a, b, d, n, u, v);
    lemma_square_distribute(a, b, c, d, n);
}

/// One component of the squared scaled distance, expanded.
proof fn lemma_comp_sq(u: int, w: int, n: int, d: int)
    ensures
        (u * d + n * w) * (u * d + n * w) == (u * u) * (d * d) + 2 * ((u * w) * (n * d)) + (w
            * w) * (n * n),
{
    let p = u * d;
    let q = n * w;
    lemma_binomial(p, q);
    assert((u * d) * (u * d) == (u * u) * (d * d) && 2 * ((u * d) * (n * w)) == 2 * ((u * w) * (n
        * d)) && (n * w) * (n * w) == (w * w) * (n * n)) by (nonlinear_arith);
}

/// Collecting equal second factors over a three-term sum.
proof fn lemma_collect(p1: int, p2: int, p3: int, s: int)
    by (nonlinear_arith)
    ensures
        p1 * s + p2 * s + p3 * s == (p1 + p2 + p3) * s,
{
}

/// Expansion of the squared scaled distance into the quadratic's
/// coefficients.
proof fn lemma_dist2_expand(ux: int, uy: int, uz: int, dx: int, dy: int, dz: int, n: int, d: int)
    ensures
        (ux * d + n * dx) * (ux * d + n * dx) + (uy * d + n * dy) * (uy * d + n * dy) + (uz * d
            + n * dz) * (uz * d + n * dz) == (dx * dx + dy * dy + dz * dz) * (n * n) + (2 * (dx
            * ux + dy * uy + dz * uz)) * (n * d) + (ux * ux + uy * uy + uz * uz) * (d * d),
{
    lemma_comp_sq(ux, dx, n, d);
    lemma_comp_sq(uy, dy, n, d);
    lemma_comp_sq(uz, dz, n, d);
    lemma_collect(ux * ux, uy * uy, uz * uz, d * d);
    lemma_collect(dx * dx, dy * dy, dz * dz, n * n);
    assert(2 * ((ux * dx) * (n * d)) + 2 * ((uy * dy) * (n * d)) + 2 * ((uz * dz) * (n * d)) == (2
        * (dx * ux + dy * uy + dz * uz)) * (n * d)) by (nonlinear_arith);
}

/// The point at either returned root lies inside the sphere's bounding
/// box.
pub proof fn lemma_sphere_root_in_bbox(s: Sphere, ray: Ray, t: Tval)
    requires
        s.wf(),
        s.disc(ray) > 0,
        s.qa(ray) > 0,
        t.den == s.hit_den(ray),
        t.num == -s.qb(ray) - sqrt_floor(s.disc(ray)) || t.num == -s.qb(ray) + sqrt_floor(
            s.disc(ray),
        ),
    ensures
        forall|bv: BoundingVolume|
            bv.min.x == s.position.x - s.radius && bv.min.y == s.position.y - s.radius
                && bv.min.z == s.position.z - s.radius && bv.max.x == s.position.x + s.radius
                && bv.max.y == s.position.y + s.radius && bv.max.z == s.position.z + s.radius
                ==> #[trigger] bv.contains_at(ray, t),
{
    let r = s.radius as int;
    let d = t.den as int;
    let px = ray.at_scaled(t, 0) - s.position.x * d;
    let py = ray.at_scaled(t, 1) - s.position.y * d;
    let pz = ray.at_scaled(t, 2) - s.position.z * d;
    lemma_sphere_root_dist(s, ray, t);
    assert(d > 0);
    assert(px * px <= r * r * d * d && py * py <= r * r * d * d && pz * pz <= r * r * d * d)
        by (nonlinear_arith)
        requires
            px * px + py * py + pz * pz <= r * r * d * d,
    ;
    assert(-(r * d) <= px <= r * d) by (nonlinear_arith)
        requires
            px * px <= r * r * d * d,
            r > 0,
            d > 0,
    ;
    assert(-(r * d) <= py <= r * d) by (nonlinear_arith)
        requires
            py * py <= r * r * d * d,
            r > 0,
            d > 0,
    ;
    assert(-(r * d) <= pz <= r * d) by (nonlinear_arith)
        requires
            pz * pz <= r * r * d * d,
            r > 0,
            d > 0,
    ;
    assert forall|bv: BoundingVolume|
        bv.min.x == s.position.x - s.radius && bv.min.y == s.position.y - s.radius && bv.min.z
            == s.position.z - s.radius && bv.max.x == s.position.x + s.radius && bv.max.y
            == s.position.y + s.radius && bv.max.z == s.position.z + s.radius implies #[trigger] bv.contains_at(
        ray,
        t,
    ) by {
        assert(crate::bounding_volume::axis_slab_ok(
            bv.min.x as int,
            bv.max.x as int,
            ray.origin.x as int,
            ray.direction.x as int,
            t,
        )) by (nonlinear_arith)
            requires
                bv.min.x == s.position.x - r,
                bv.max.x == s.position.x + r,
                -(r * d) <= ray.origin.x * d + t.num * ray.direction.x - s.position.x * d <= r * d,
                d == t.den,
        ;
        assert(crate::bounding_volume::axis_slab_ok(
            bv.min.y as int,
            bv.max.y as int,
            ray.origin.y as int,
            ray.direction.y as int,
            t,
        )) by (nonlinear_arith)
            requires
                bv.min.y == s.position.y - r,
                bv.max.y == s.position.y + r,
                -(r * d) <= ray.origin.y * d + t.num * ray.direction.y - s.position.y * d <= r * d,
                d == t.den,
        ;
        assert(crate::bounding_volume::axis_slab_ok(
            bv.min.z as int,
            bv.max.z as int,
            ray.origin.z as int,
            ray.direction.z as int,
            t,
        )) by (nonlinear_arith)
            requires
                bv.min.z == s.position.z - r,
                bv.max.z == s.position.z + r,
                -(r * d) <= ray.origin.z * d + t.num * ray.direction.z - s.position.z * d <= r * d,
                d == t.den,
        ;
    }
}

/// Bounds on the quadratic coefficients and the discriminant, from the
/// coordinate and direction bounds.
pub proof fn lemma_coeff_bounds(s: Sphere, ray: Ray)
    requires
        s.wf(),
        ray.wf(),
    ensures
        0 <= s.qa(ray) <= 0x3000_0000_0000,
        -0x80_0000_0000 <= s.qb(ray) <= 0x80_0000_0000,
        -0x2000_0000 <= s.qc(ray) <= 0x2000_0000,
        -0x1_0000_0000_0000_0000_0000 < s.disc(ray) < 0x1_0000_0000_0000_0000_0000,
{
    let dx = ray.direction.x as int;
    let dy = ray.direction.y as int;
    let dz = ray.direction.z as int;
    let m = crate::vec3::DIR_MAX as int;
    lemma_mul_bound(dx, dx, m, m);
    lemma_mul_bound(dy, dy, m, m);
    lemma_mul_bound(dz, dz, m, m);
    assert(s.qa(ray) >= 0) by (nonlinear_arith)
        requires
            s.qa(ray) == dx * dx + dy * dy + dz * dz,
    ;
    lemma_mul_bound(dx, ray.origin.x - s.position.x, m, 0x3000);
    lemma_mul_bound(dy, ray.origin.y - s.position.y, m, 0x3000);
    lemma_mul_bound(dz, ray.origin.z - s.position.z, m, 0x3000);
    lemma_mul_bound(ray.origin.x - s.position.x, ray.origin.x - s.position.x, 0x3000, 0x3000);
    lemma_mul_bound(ray.origin.y - s.position.y, ray.origin.y - s.position.y, 0x3000, 0x3000);
    lemma_mul_bound(ray.origin.z - s.position.z, ray.origin.z - s.position.z, 0x3000, 0x3000);
    lemma_mul_bound(s.radius as int, s.radius as int, COORD_MAX as int, COORD_MAX as int);
    lemma_mul_bound(s.qb(ray), s.qb(ray), 0x80_0000_0000, 0x80_0000_0000);
    lemma_mul_bound(4 * s.qa(ray), s.qc(ray), 0xC000_0000_0000, 0x2000_0000);
}

/// The rounded hit point lies within one unit of the sphere's box, so it
/// fits comfortably on the grid.
proof fn lemma_point_round_bounds(s: Sphere, ray: Ray, t: Tval)
    requires
        s.wf(),
        s.disc(ray) > 0,
        s.qa(ray) > 0,
        t.den == s.hit_den(ray),
        t.num == -s.qb(ray) - sqrt_floor(s.disc(ray)) || t.num == -s.qb(ray) + sqrt_floor(
            s.disc(ray),
        ),
    ensures
        -2 * COORD_MAX - 1 <= ray.at_scaled(t, 0) / (t.den as int) <= 2 * COORD_MAX,
        -2 * COORD_MAX - 1 <= ray.at_scaled(t, 1) / (t.den as int) <= 2 * COORD_MAX,
        -2 * COORD_MAX - 1 <= ray.at_scaled(t, 2) / (t.den as int) <= 2 * COORD_MAX,
{
    lemma_sphere_root_in_bbox(s, ray, t);
    let bv = BoundingVolume {
        min: Vec3 {
            x: (s.position.x - s.radius) as i64,
            y: (s.position.y - s.radius) as i64,
            z: (s.position.z - s.radius) as i64,
        },
        max: Vec3 {
            x: (s.position.x + s.radius) as i64,
            y: (s.position.y + s.radius) as i64,
            z: (s.position.z + s.radius) as i64,
        },
    };
    assert(bv.contains_at(ray, t));
    let d = t.den as int;
    let lo = -2 * (COORD_MAX as int);
    let hi = 2 * (COORD_MAX as int);
    assert forall|i: int| 0 <= i < 3 implies lo - 1 <= #[trigger] ray.at_scaled(t, i) / d <= hi by {
        assert(lo * d <= ray.at_scaled(t, i) <= hi * d) by (nonlinear_arith)
            requires
                d > 0,
                bv.min.saxis(i) * d <= ray.at_scaled(t, i) <= bv.max.saxis(i) * d,
                lo <= bv.min.saxis(i),
                bv.max.saxis(i) <= hi,
        ;
        lemma_div_is_ordered(lo * d, ray.at_scaled(t, i), d);
        lemma_div_is_ordered(ray.at_scaled(t, i), hi * d, d);
        lemma_div_multiples_vanish(lo, d);
        lemma_div_multiples_vanish(hi, d);
    }
}

} // verus!
