//! The library's headline theorems, stated over the contracts of the
//! geometry modules.

use vstd::prelude::*;
use crate::bvh::BvhNode;
use crate::hit::HitData;
use crate::primitive::Primitive;
use crate::primitive::is_best_hit;
use crate::primitive::is_min_hit;
use crate::primitive::lemma_best_is_min;
use crate::rat::Tval;
use crate::rat::seq_rat;
use crate::rat::sqrt_floor;
use crate::ray::Ray;
use crate::sphere::Sphere;

verus! {

/// Sphere solver law: whenever the quadratic solver reports a hit, the
/// squared distance from the hit point to the center is pinned exactly:
/// it undershoots the squared radius by precisely the coefficient `a`
/// times the discriminant's square-root rounding deficit (everything
/// scaled by the parameter denominator).  In particular it never
/// exceeds the squared radius — the floor-rounded root still lies
/// between the two real roots — and equals it exactly whenever the
/// discriminant is a perfect square.
pub proof fn lemma_sphere_hit_on_surface(s: Sphere, ray: Ray, t_min: Tval, t_max: Tval, t: Tval)
    requires
        s.wf(),
        ray.wf(),
        s.hit_num(ray, t_min, t_max) == Some(t.num as int),
        t.den == s.hit_den(ray),
    ensures
        s.dist2_scaled(ray, t) <= s.radius * s.radius * t.den * t.den,
        s.dist2_scaled(ray, t) == s.radius * s.radius * (t.den * t.den) + s.qa(ray) * (
        sqrt_floor(s.disc(ray)) * sqrt_floor(s.disc(ray)) - s.disc(ray)),
        sqrt_floor(s.disc(ray)) * sqrt_floor(s.disc(ray)) == s.disc(ray) ==> s.dist2_scaled(
            ray,
            t,
        ) == s.radius * s.radius * t.den * t.den,
{
    crate::sphere::lemma_sphere_root_dist(s, ray, t);
}

/// Two minimal-parameter results over the same multiset of primitives
/// agree on whether anything was hit and on the hit distance.
pub proof fn lemma_min_hits_agree(
    prims1: Seq<Primitive>,
    prims2: Seq<Primitive>,
    ray: Ray,
    t_min: Tval,
    t_max: Tval,
    h1: HitData,
    h2: HitData,
)
    requires
        prims1.to_multiset() == prims2.to_multiset(),
        is_min_hit(prims1, ray, t_min, t_max, h1),
        is_min_hit(prims2, ray, t_min, t_max, h2),
    ensures
        h1.did_hit == h2.did_hit,
        h1.did_hit ==> seq_rat(h1.t, h2.t),
{
    if h1.did_hit {
        let i = choose|i: int|
            0 <= i < prims1.len() && (#[trigger] prims1[i]).hit_t(ray, t_min, t_max) == Some(
                (h1.t.num as int, h1.t.den as int),
            );
        let p = prims1[i];
        vstd::seq_lib::to_multiset_contains(prims1, p);
        vstd::seq_lib::to_multiset_contains(prims2, p);
        assert(prims2.contains(p));
        let j = choose|j: int| 0 <= j < prims2.len() && prims2[j] == p;
        assert(prims2[j].hit_t(ray, t_min, t_max) is Some);
        assert(h2.did_hit);
    }
    if h2.did_hit {
        let i = choose|i: int|
            0 <= i < prims2.len() && (#[trigger] prims2[i]).hit_t(ray, t_min, t_max) == Some(
                (h2.t.num as int, h2.t.den as int),
            );
        let p = prims2[i];
        vstd::seq_lib::to_multiset_contains(prims2, p);
        vstd::seq_lib::to_multiset_contains(prims1, p);
        assert(prims1.contains(p));
        let j = choose|j: int| 0 <= j < prims1.len() && prims1[j] == p;
        assert(prims1[j].hit_t(ray, t_min, t_max) is Some);
        assert(h1.did_hit);
    }
    if h1.did_hit && h2.did_hit {
        // Each result is at most the other's winning parameter.
        let i1 = choose|i: int|
            0 <= i < prims1.len() && (#[trigger] prims1[i]).hit_t(ray, t_min, t_max) == Some(
                (h1.t.num as int, h1.t.den as int),
            );
        let p1 = prims1[i1];
        vstd::seq_lib::to_multiset_contains(prims1, p1);
        vstd::seq_lib::to_multiset_contains(prims2, p1);
        let j1 = choose|j: int| 0 <= j < prims2.len() && prims2[j] == p1;
        assert(crate::rat::nd_le(
            h2.t.num as int,
            h2.t.den as int,
            h1.t.num as int,
            h1.t.den as int,
        ));
        let i2 = choose|i: int|
            0 <= i < prims2.len() && (#[trigger] prims2[i]).hit_t(ray, t_min, t_max) == Some(
                (h2.t.num as int, h2.t.den as int),
            );
        let p2 = prims2[i2];
        vstd::seq_lib::to_multiset_contains(prims2, p2);
        vstd::seq_lib::to_multiset_contains(prims1, p2);
        let j2 = choose|j: int| 0 <= j < prims1.len() && prims1[j] == p2;
        assert(crate::rat::nd_le(
            h1.t.num as int,
            h1.t.den as int,
            h2.t.num as int,
            h2.t.den as int,
        ));
    }
}

/// Traversal equivalence: on plane-free geometry, the acceleration
/// tree's hit and the brute-force scan of the same primitives (in any
/// order) report the same outcome and the same exact distance.  The
/// tree's `hit` contract supplies the minimal-parameter fact for its
/// subtree; the scan's contract supplies it for the flat list.
pub proof fn lemma_traversal_matches_scan(
    node: BvhNode,
    list: Seq<Primitive>,
    ray: Ray,
    t_min: Tval,
    t_max: Tval,
    ht: HitData,
    hl: HitData,
)
    requires
        node.subtree_prims().to_multiset() == list.to_multiset(),
        is_min_hit(node.subtree_prims(), ray, t_min, t_max, ht),
        is_best_hit(list, ray, t_min, t_max, hl),
    ensures
        ht.did_hit == hl.did_hit,
        ht.did_hit ==> seq_rat(ht.t, hl.t),
{
    lemma_best_is_min(list, ray, t_min, t_max, hl);
    lemma_min_hits_agree(node.subtree_prims(), list, ray, t_min, t_max, ht, hl);
}

/// Shadow law: one occluded light darkens a shaded color by exactly
/// three tenths of the unshadowed base, per channel, rounded down.
/// Together with `Scene::shadow_pass`, whose result is always
/// `spec_shadow_fold(base, k)` for the number of occluded lights, this
/// pins the full shadow arithmetic.
pub proof fn lemma_single_shadow_three_tenths(base: crate::vec3::Vec3)
    requires
        base.bounded(0x10_0000_0000),
    ensures
        crate::scene::spec_shadow_fold(base, 1).x as int == base.x - (3 * base.x) / 10,
        crate::scene::spec_shadow_fold(base, 1).y as int == base.y - (3 * base.y) / 10,
        crate::scene::spec_shadow_fold(base, 1).z as int == base.z - (3 * base.z) / 10,
{
    reveal_with_fuel(crate::scene::spec_shadow_fold, 2);
    crate::hit::lemma_div_range(3 * (base.x as int), 10, -0x10_0000_0000, 0x10_0000_0000);
    crate::hit::lemma_div_range(3 * (base.y as int), 10, -0x10_0000_0000, 0x10_0000_0000);
    crate::hit::lemma_div_range(3 * (base.z as int), 10, -0x10_0000_0000, 0x10_0000_0000);
}

} // verus!
