//! Intersection geometry: spheres, planes, triangles, boxes, rationals.

use raytracer::BoundingVolume;
use raytracer::Flat;
use raytracer::HittableList;
use raytracer::Material;
use raytracer::Plane;
use raytracer::Primitive;
use raytracer::Ray;
use raytracer::Sphere;
use raytracer::Triangle;
use raytracer::Tval;
use raytracer::Vec3;

fn grey() -> Material {
    Material::Flat(Flat::new(Vec3::new(128, 128, 128)))
}

fn t0() -> Tval {
    Tval::new(0, 1)
}

fn far() -> Tval {
    Tval::new(100000, 1)
}

/// A unit sphere (scaled 512) in front of the origin is hit at exactly
/// four direction lengths, with an outward `+z` normal.
#[test]
fn sphere_center_hit_distance() {
    let mut s = Sphere::new(512, grey());
    s.translate(Vec3::new(0, 0, -2560));
    let ray = Ray::new(Vec3::new(0, 0, 0), Vec3::new(0, 0, -512));
    let h = s.hit(ray, t0(), far());
    assert!(h.did_hit);
    // t == 4 exactly, as a rational.
    assert_eq!(h.t.num, 4 * h.t.den);
    // The outward normal points back along +z.
    assert_eq!(h.normal.x, 0);
    assert_eq!(h.normal.y, 0);
    assert!(h.normal.z > 0);
    // The rounded hit point is the near pole.
    assert_eq!(h.hit_point.x, 0);
    assert_eq!(h.hit_point.y, 0);
    assert_eq!(h.hit_point.z, -2048);
}

/// A ray pointing away misses; the record is the sentinel.
#[test]
fn sphere_miss_is_sentinel() {
    let mut s = Sphere::new(512, grey());
    s.translate(Vec3::new(0, 0, -2560));
    let ray = Ray::new(Vec3::new(0, 0, 0), Vec3::new(0, 0, 512));
    let h = s.hit(ray, t0(), far());
    assert!(!h.did_hit);
    assert_eq!(h.t.den, 1);
}

/// A tangent ray (zero discriminant) renders nothing.
#[test]
fn sphere_tangent_misses() {
    let mut s = Sphere::new(100, grey());
    s.translate(Vec3::new(0, 100, -1000));
    // Grazes the sphere at y == 0 exactly.
    let ray = Ray::new(Vec3::new(0, 0, 0), Vec3::new(0, 0, -1));
    let h = s.hit(ray, t0(), far());
    assert!(!h.did_hit);
}

/// Entering inside the sphere, the larger root is used.
#[test]
fn sphere_inside_uses_far_root() {
    let s = Sphere::new(512, grey());
    let ray = Ray::new(Vec3::new(0, 0, 0), Vec3::new(0, 0, -1));
    let h = s.hit(ray, t0(), far());
    assert!(h.did_hit);
    assert_eq!(h.t.num, 512 * h.t.den);
}

/// Exact ray-plane distance: `t = N.(P0 - O) / (N.D)`.
#[test]
fn plane_hit_distance() {
    let mut p = Plane::new(4000, 4000, Vec3::new(0, 1, 0), grey());
    p.translate(Vec3::new(0, -100, 0));
    let ray = Ray::new(Vec3::new(0, 0, 0), Vec3::new(0, -2, -1));
    let h = p.hit(ray, t0(), far());
    assert!(h.did_hit);
    // t == 50: -100 / -2.
    assert_eq!(h.t.num, 50 * h.t.den);
    assert_eq!(h.normal, Vec3::new(0, 1, 0));
    assert_eq!(h.hit_point.y, -100);
}

/// A parallel ray misses the plane.
#[test]
fn plane_parallel_misses() {
    let p = Plane::new(4000, 4000, Vec3::new(0, 1, 0), grey());
    let ray = Ray::new(Vec3::new(0, 10, 0), Vec3::new(1, 0, 0));
    let h = p.hit(ray, t0(), far());
    assert!(!h.did_hit);
}

fn test_triangle() -> Triangle {
    // A triangle in the z = -1000 plane facing +z.
    let v0 = Vec3::new(-500, -500, -1000);
    let v1 = Vec3::new(500, -500, -1000);
    let v2 = Vec3::new(0, 500, -1000);
    let n = Vec3::new(0, 0, 1000);
    Triangle::new(n, (n, n, n), (v0, v1, v2), grey(), false)
}

/// A ray through the inside of the triangle hits at the exact distance.
#[test]
fn triangle_interior_hit() {
    let t = test_triangle();
    let ray = Ray::new(Vec3::new(0, 0, 0), Vec3::new(0, 0, -1));
    let h = t.hit(ray, t0(), far());
    assert!(h.did_hit);
    assert_eq!(h.t.num, 1000 * h.t.den);
    assert_eq!(h.normal, Vec3::new(0, 0, 1000));
}

/// A ray outside the barycentric range misses.
#[test]
fn triangle_outside_misses() {
    let t = test_triangle();
    let ray = Ray::new(Vec3::new(600, 600, 0), Vec3::new(0, 0, -1));
    let h = t.hit(ray, t0(), far());
    assert!(!h.did_hit);
}

/// A back-facing triangle is rejected.
#[test]
fn triangle_backface_rejected() {
    let t = test_triangle();
    let ray = Ray::new(Vec3::new(0, 0, -2000), Vec3::new(0, 0, 1));
    let h = t.hit(ray, t0(), far());
    assert!(!h.did_hit);
}

/// The slab test accepts a ray through the box and the test is exact on
/// the closed boundary.
#[test]
fn box_slab_test() {
    let bv = BoundingVolume::new(Vec3::new(-100, -100, -300), Vec3::new(100, 100, -100));
    let through = Ray::new(Vec3::new(0, 0, 0), Vec3::new(0, 0, -1));
    assert!(bv.hit(through, t0(), far()));
    let beside = Ray::new(Vec3::new(500, 0, 0), Vec3::new(0, 0, -1));
    assert!(!bv.hit(beside, t0(), far()));
    // A zero direction component passes exactly when the origin is
    // within that slab...
    let axis = Ray::new(Vec3::new(100, 0, 0), Vec3::new(0, 0, -1));
    assert!(bv.hit(axis, t0(), far()));
    // ...and a ray parallel to a slab it lies outside of misses.
    let outside = Ray::new(Vec3::new(101, 0, 0), Vec3::new(0, 0, -1));
    assert!(!bv.hit(outside, t0(), far()));
}

/// The union box contains both inputs.
#[test]
fn box_union_contains() {
    let a = BoundingVolume::new(Vec3::new(-10, 0, 0), Vec3::new(5, 5, 5));
    let b = BoundingVolume::new(Vec3::new(0, -3, 1), Vec3::new(9, 4, 2));
    let u = a.union(b);
    assert_eq!(u.min, Vec3::new(-10, -3, 0));
    assert_eq!(u.max, Vec3::new(9, 5, 5));
}

/// The closest-wins scan returns the nearer of two spheres, and the
/// first on an exact tie.
#[test]
fn list_scan_closest_wins() {
    let mut near = Sphere::new(100, grey());
    near.translate(Vec3::new(0, 0, -500));
    let mut far_s = Sphere::new(100, Material::Flat(Flat::new(Vec3::new(1, 2, 3))));
    far_s.translate(Vec3::new(0, 0, -1500));
    let mut list = HittableList::new();
    list.push(Primitive::Sphere(far_s));
    list.push(Primitive::Sphere(near));
    let ray = Ray::new(Vec3::new(0, 0, 0), Vec3::new(0, 0, -1));
    let h = list.hit(ray, t0(), far());
    assert!(h.did_hit);
    assert_eq!(h.t.num, 400 * h.t.den);
}

/// An empty list reports the sentinel.
#[test]
fn empty_list_misses() {
    let list = HittableList::new();
    let ray = Ray::new(Vec3::new(0, 0, 0), Vec3::new(0, 0, -1));
    let h = list.hit(ray, t0(), far());
    assert!(!h.did_hit);
}

/// Rational parameter comparisons are exact cross-multiplications.
#[test]
fn rational_compare() {
    let a = Tval::new(1, 3);
    let b = Tval::new(2, 6);
    let c = Tval::new(1, 2);
    assert!(a.eq_rat(b));
    assert!(a.lt(c));
    assert!(!c.lt(a));
    assert!(a.le(b) && b.le(a));
}

/// The integer square root brackets its argument.
#[test]
fn isqrt_values() {
    assert_eq!(raytracer::rat::isqrt(0), 0);
    assert_eq!(raytracer::rat::isqrt(1), 1);
    assert_eq!(raytracer::rat::isqrt(8), 2);
    assert_eq!(raytracer::rat::isqrt(9), 3);
    assert_eq!(raytracer::rat::isqrt(1 << 62), 1 << 31);
}

/// Sorting by an axis orders the centroids and keeps every element.
#[test]
fn sort_by_axis_orders() {
    let mut list = HittableList::new();
    for x in [30i64, -10, 20, 0, 20] {
        let mut s = Sphere::new(10, grey());
        s.translate(Vec3::new(x, 0, -100));
        list.push(Primitive::Sphere(s));
    }
    list.sort_by_axis(0);
    let mut prev = i64::MIN;
    for i in 0..list.len() {
        let p = list.get(i);
        let pos = p.get_position();
        assert!(prev <= pos.x);
        prev = pos.x;
    }
    assert_eq!(list.len(), 5);
}

/// Sorting volumes by an axis orders the centroids and keeps every box.
#[test]
fn volume_sort_by_axis() {
    let mut vols = vec![
        BoundingVolume::new(Vec3::new(10, 0, 0), Vec3::new(20, 1, 1)),
        BoundingVolume::new(Vec3::new(-10, 0, 0), Vec3::new(0, 1, 1)),
        BoundingVolume::new(Vec3::new(0, 0, 0), Vec3::new(10, 1, 1)),
    ];
    BoundingVolume::sort_by_axis(&mut vols, 0);
    assert_eq!(vols.len(), 3);
    assert!(vols[0].min.x <= vols[1].min.x && vols[1].min.x <= vols[2].min.x);
    assert_eq!(vols[0].min, Vec3::new(-10, 0, 0));
}
