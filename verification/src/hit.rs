//! The result of a ray cast, and the exact rounding helpers that bring
//! rational hit data back onto the integer grid.

use vstd::prelude::*;
use vstd::arithmetic::div_mod::lemma_fundamental_div_mod_converse;
use crate::materials::Material;
use crate::rat::Tval;
use crate::rat::T_MAX;
use crate::ray::Ray;
use crate::vec3::NORMAL_MAX;
use crate::vec3::Vec3;

verus! {

/// Floor of `num / den` for a positive denominator, computed through
/// unsigned division.
pub fn div_floor(num: i128, den: i128) -> (r: i128)
    requires
        1 <= den,
        -0x4000_0000_0000_0000_0000_0000_0000_0000 < num < 0x4000_0000_0000_0000_0000_0000_0000_0000,
    ensures
        r == num as int / den as int,
{
    if num >= 0 {
        let q = (num as u128) / (den as u128);
        proof {
            vstd::arithmetic::div_mod::lemma_fundamental_div_mod(num as int, den as int);
        }
        q as i128
    } else {
        let m = (-num) as u128;
        let q0 = m / (den as u128);
        let rem = m % (den as u128);
        let r = if rem == 0 {
            -(q0 as i128)
        } else {
            -(q0 as i128) - 1
        };
        proof {
            vstd::arithmetic::div_mod::lemma_fundamental_div_mod(m as int, den as int);
            assert(m as int == (den as int) * (q0 as int) + (rem as int));
            if rem == 0 {
                assert(num as int == (-(q0 as int)) * (den as int) + 0) by (nonlinear_arith)
                    requires
                        m as int == (den as int) * (q0 as int),
                        num as int == -(m as int),
                ;
                lemma_fundamental_div_mod_converse(num as int, den as int, -(q0 as int), 0);
            } else {
                assert(num as int == (-(q0 as int) - 1) * (den as int) + ((den as int) - (
                rem as int))) by (nonlinear_arith)
                    requires
                        m as int == (den as int) * (q0 as int) + (rem as int),
                        num as int == -(m as int),
                ;
                lemma_fundamental_div_mod_converse(
                    num as int,
                    den as int,
                    -(q0 as int) - 1,
                    den - rem,
                );
            }
        }
        r
    }
}

/// Division by a positive denominator keeps a scaled range.
pub proof fn lemma_div_range(at: int, den: int, lo: int, hi: int)
    requires
        den > 0,
        lo * den <= at <= hi * den,
    ensures
        lo <= at / den <= hi,
{
    vstd::arithmetic::div_mod::lemma_div_is_ordered(lo * den, at, den);
    vstd::arithmetic::div_mod::lemma_div_is_ordered(at, hi * den, den);
    vstd::arithmetic::div_mod::lemma_div_multiples_vanish(lo, den);
    vstd::arithmetic::div_mod::lemma_div_multiples_vanish(hi, den);
    assert(lo * den == den * lo) by (nonlinear_arith);
    assert(hi * den == den * hi) by (nonlinear_arith);
}

/// A capped, nonnegative parameter keeps the point of a bounded ray within
/// `i64` range of the grid: each scaled coordinate sits inside
/// `[-2^43 den, 2^43 den]`.
pub proof fn lemma_capped_point_range(ray: crate::ray::Ray, t: crate::rat::Tval, a: int)
    requires
        ray.wf(),
        t.den > 0,
        t.num >= 0,
        crate::rat::capped(t),
        0 <= a < 3,
    ensures
        -0x800_0000_0000 * t.den <= ray.at_scaled(t, a) <= 0x800_0000_0000 * t.den,
        -0x800_0000_0000 <= ray.at_scaled(t, a) / (t.den as int) <= 0x800_0000_0000,
{
    let o = ray.origin.saxis(a);
    let d = ray.direction.saxis(a);
    assert(-0x800_0000_0000 * t.den <= o * t.den + t.num * d <= 0x800_0000_0000 * t.den)
        by (nonlinear_arith)
        requires
            -0x2000 <= o <= 0x2000,
            -0x40_0000 <= d <= 0x40_0000,
            t.den > 0,
            0 <= t.num <= crate::rat::T_CAP * t.den,
    ;
    lemma_div_range(o * t.den + t.num * d, t.den as int, -0x800_0000_0000, 0x800_0000_0000);
}

/// The point of the ray at a capped, nonnegative parameter, rounded down
/// onto the grid.
pub fn round_point(ray: crate::ray::Ray, t: crate::rat::Tval) -> (p: Vec3)
    requires
        ray.wf(),
        t.valid(),
        t.num >= 0,
        crate::rat::capped(t),
    ensures
        p.x == ray.at_scaled(t, 0) / (t.den as int),
        p.y == ray.at_scaled(t, 1) / (t.den as int),
        p.z == ray.at_scaled(t, 2) / (t.den as int),
        p.bounded(0x800_0000_0000),
{
    proof {
        lemma_capped_point_range(ray, t, 0);
        lemma_capped_point_range(ray, t, 1);
        lemma_capped_point_range(ray, t, 2);
        crate::vec3::lemma_mul_bound(ray.origin.x as int, t.den as int, 0x2000, crate::rat::T_MAX as int);
        crate::vec3::lemma_mul_bound(ray.origin.y as int, t.den as int, 0x2000, crate::rat::T_MAX as int);
        crate::vec3::lemma_mul_bound(ray.origin.z as int, t.den as int, 0x2000, crate::rat::T_MAX as int);
        crate::vec3::lemma_mul_bound(t.num as int, ray.direction.x as int, crate::rat::T_MAX as int, 0x40_0000);
        crate::vec3::lemma_mul_bound(t.num as int, ray.direction.y as int, crate::rat::T_MAX as int, 0x40_0000);
        crate::vec3::lemma_mul_bound(t.num as int, ray.direction.z as int, crate::rat::T_MAX as int, 0x40_0000);
    }
    let ax = (ray.origin.x as i128) * t.den + t.num * (ray.direction.x as i128);
    let ay = (ray.origin.y as i128) * t.den + t.num * (ray.direction.y as i128);
    let az = (ray.origin.z as i128) * t.den + t.num * (ray.direction.z as i128);
    let px = div_floor(ax, t.den);
    let py = div_floor(ay, t.den);
    let pz = div_floor(az, t.den);
    Vec3 { x: px as i64, y: py as i64, z: pz as i64 }
}

/// Floor of `v / 2`.
pub fn floor_half(v: i128) -> (r: i128)
    requires
        -0x4000_0000_0000_0000_0000_0000_0000_0000 < v < 0x4000_0000_0000_0000_0000_0000_0000_0000,
    ensures
        r == v as int / 2,
{
    div_floor(v, 2)
}

/// Halve all three components (toward minus infinity) until each fits the
/// bound; the direction of the triple is preserved up to that rounding.
pub open spec fn sreduce(x: int, y: int, z: int, b: int) -> (int, int, int)
    recommends
        b >= 1,
    decreases vstd::math::abs(x) + vstd::math::abs(y) + vstd::math::abs(z),
    when b >= 1
    via sreduce_decreases
{
    if -b <= x <= b && -b <= y <= b && -b <= z <= b {
        (x, y, z)
    } else {
        sreduce(x / 2, y / 2, z / 2, b)
    }
}

/// Flooring halves shrink magnitudes, so the reduction terminates.
pub proof fn lemma_half_abs(v: int)
    ensures
        vstd::math::abs(v / 2) <= vstd::math::abs(v),
        vstd::math::abs(v) >= 2 ==> vstd::math::abs(v / 2) < vstd::math::abs(v),
{
    vstd::arithmetic::div_mod::lemma_fundamental_div_mod(v, 2);
}

#[via_fn]
proof fn sreduce_decreases(x: int, y: int, z: int, b: int) {
    if !(-b <= x <= b && -b <= y <= b && -b <= z <= b) {
        lemma_half_abs(x);
        lemma_half_abs(y);
        lemma_half_abs(z);
    }
}

/// Reduce a wide integer direction onto `i64` components within the
/// bound, halving exactly as `sreduce` describes.
pub fn reduce_dir_to(x: i128, y: i128, z: i128, bound: i64) -> (r: Vec3)
    requires
        -0x4000_0000_0000_0000_0000_0000_0000_0000 < x < 0x4000_0000_0000_0000_0000_0000_0000_0000,
        -0x4000_0000_0000_0000_0000_0000_0000_0000 < y < 0x4000_0000_0000_0000_0000_0000_0000_0000,
        -0x4000_0000_0000_0000_0000_0000_0000_0000 < z < 0x4000_0000_0000_0000_0000_0000_0000_0000,
        1 <= bound,
    ensures
        (r.x as int, r.y as int, r.z as int) == sreduce(x as int, y as int, z as int, bound as int),
        r.bounded(bound as int),
{
    let mut cx = x;
    let mut cy = y;
    let mut cz = z;
    let b = bound as i128;
    while !(-b <= cx && cx <= b && -b <= cy && cy <= b && -b <= cz && cz <= b)
        invariant
            -0x4000_0000_0000_0000_0000_0000_0000_0000 < cx < 0x4000_0000_0000_0000_0000_0000_0000_0000,
            -0x4000_0000_0000_0000_0000_0000_0000_0000 < cy < 0x4000_0000_0000_0000_0000_0000_0000_0000,
            -0x4000_0000_0000_0000_0000_0000_0000_0000 < cz < 0x4000_0000_0000_0000_0000_0000_0000_0000,
            b == bound as i128,
            1 <= bound,
            sreduce(cx as int, cy as int, cz as int, bound as int) == sreduce(
                x as int,
                y as int,
                z as int,
                bound as int,
            ),
        decreases vstd::math::abs(cx as int) + vstd::math::abs(cy as int) + vstd::math::abs(cz as int),
    {
        proof {
            lemma_half_abs(cx as int);
            lemma_half_abs(cy as int);
            lemma_half_abs(cz as int);
        }
        cx = floor_half(cx);
        cy = floor_half(cy);
        cz = floor_half(cz);
    }
    Vec3 { x: cx as i64, y: cy as i64, z: cz as i64 }
}

/// Reduce a wide integer direction to within `NORMAL_MAX`.
pub fn reduce_dir(x: i128, y: i128, z: i128) -> (r: Vec3)
    requires
        -0x4000_0000_0000_0000_0000_0000_0000_0000 < x < 0x4000_0000_0000_0000_0000_0000_0000_0000,
        -0x4000_0000_0000_0000_0000_0000_0000_0000 < y < 0x4000_0000_0000_0000_0000_0000_0000_0000,
        -0x4000_0000_0000_0000_0000_0000_0000_0000 < z < 0x4000_0000_0000_0000_0000_0000_0000_0000,
    ensures
        (r.x as int, r.y as int, r.z as int) == sreduce(x as int, y as int, z as int, NORMAL_MAX as int),
        r.bounded(NORMAL_MAX as int),
{
    reduce_dir_to(x, y, z, NORMAL_MAX)
}

/// A hit record fit for shading: the point on the grid, the normal
/// within its bound, and well-formed ray and material.
pub open spec fn hit_sane(h: HitData) -> bool {
    &&& h.hit_point.bounded(0x800_0000_0000)
    &&& h.normal.bounded(NORMAL_MAX as int)
    &&& h.ray.wf()
    &&& h.mat.wf()
}

/// Everything known about a ray cast: the rational parameter of the
/// closest intersection, the grid point it rounds to, the outward surface
/// direction, and a copy of the surface material.
#[derive(Clone, Copy, Debug, PartialEq, Eq, Structural)]
pub struct HitData {
    /// Distance along the ray, in direction lengths; the sentinel when
    /// nothing was hit.
    pub t: Tval,
    /// Whether anything was hit.
    pub did_hit: bool,
    /// The ray that produced this record.
    pub ray: Ray,
    /// The intersection point, rounded down onto the grid.
    pub hit_point: Vec3,
    /// Outward surface direction (not normalised), reduced to `NORMAL_MAX`.
    pub normal: Vec3,
    /// The material of the surface that was hit.
    pub mat: Material,
}

impl HitData {
    /// The record of a ray that hit nothing: the sentinel parameter and a
    /// lowered flag.
    pub open spec fn spec_miss() -> HitData {
        HitData {
            t: Tval { num: T_MAX as i128, den: 1i128 },
            did_hit: false,
            ray: Ray {
                origin: Vec3 { x: 0i64, y: 0i64, z: 0i64 },
                direction: Vec3 { x: 0i64, y: 0i64, z: 0i64 },
            },
            hit_point: Vec3 { x: 0i64, y: 0i64, z: 0i64 },
            normal: Vec3 { x: 0i64, y: 0i64, z: 0i64 },
            mat: Material::Flat(crate::materials::Flat { albedo: Vec3 { x: 128i64, y: 128i64, z: 128i64 } }),
        }
    }

    pub fn new() -> (r: HitData)
        ensures
            r == HitData::spec_miss(),
            !r.did_hit,
            r.t.valid(),
    {
        HitData {
            t: Tval { num: T_MAX, den: 1 },
            did_hit: false,
            ray: Ray { origin: Vec3 { x: 0, y: 0, z: 0 }, direction: Vec3 { x: 0, y: 0, z: 0 } },
            hit_point: Vec3 { x: 0, y: 0, z: 0 },
            normal: Vec3 { x: 0, y: 0, z: 0 },
            mat: Material::Flat(crate::materials::Flat { albedo: Vec3 { x: 128, y: 128, z: 128 } }),
        }
    }

    pub fn from(
        t: Tval,
        did_hit: bool,
        ray: Ray,
        hit_point: Vec3,
        normal: Vec3,
        mat: Material,
    ) -> (r: HitData)
        ensures
            r == (HitData { t, did_hit, ray, hit_point, normal, mat }),
    {
        HitData { t, did_hit, ray, hit_point, normal, mat }
    }
}

} // verus!
