//! Axis-aligned bounding boxes.
//!
//! The ray-box test clips an exact rational parameter interval against the
//! three slabs.  Its contract pins both directions: whenever the ray
//! carries a parameter in range whose point lies in the closed box, the
//! test says so — a pruned subtree can hide no hit — and whenever the test
//! says so, such a parameter exists.  A zero direction component passes
//! its axis exactly when the origin lies within that slab, so a ray
//! travelling parallel to a slab it is outside of misses.

use vstd::prelude::*;
use crate::rat::Tval;
use crate::rat::sle;
use crate::rat::slt;
use crate::ray::ORIGIN_MAX;
use crate::ray::Ray;
use crate::vec3::DIR_MAX;
use crate::vec3::Vec3;

verus! {

/// Largest magnitude of a box corner coordinate: a primitive's box can
/// reach one `COORD_MAX` of position plus one of extent.
pub const BOX_MAX: i64 = 8192;

/// The point `o + t*d` lies between `bmin` and `bmax` on one axis, with
/// everything scaled by the (positive) denominator of `t`.
pub open spec fn axis_slab_ok(bmin: int, bmax: int, o: int, d: int, t: Tval) -> bool {
    &&& bmin * t.den <= o * t.den + t.num * d
    &&& o * t.den + t.num * d <= bmax * t.den
}

/// One slab clip, as the test computes it: the entry/exit parameters of
/// the slab (sign-normalised to a positive denominator) intersected with
/// the running interval; the flag clears when the interval empties or
/// ends before zero.
pub open spec fn spec_clip(bmin: int, bmax: int, o: int, d: int, t0: Tval, t1: Tval) -> (
    bool,
    Tval,
    Tval,
) {
    if d == 0 {
        if bmin <= o && o <= bmax {
            (true, t0, t1)
        } else {
            (false, t0, t1)
        }
    } else {
        let lo = if d > 0 {
            Tval { num: (bmin - o) as i128, den: d as i128 }
        } else {
            Tval { num: (o - bmax) as i128, den: (-d) as i128 }
        };
        let hi = if d > 0 {
            Tval { num: (bmax - o) as i128, den: d as i128 }
        } else {
            Tval { num: (o - bmin) as i128, den: (-d) as i128 }
        };
        let nt0 = if slt(t0, lo) {
            lo
        } else {
            t0
        };
        let nt1 = if slt(hi, t1) {
            hi
        } else {
            t1
        };
        let ok = if slt(nt1, nt0) {
            false
        } else {
            nt1.num >= 0
        };
        (ok, nt0, nt1)
    }
}

/// The box test, as it is computed: the three slab clips chained.
pub open spec fn spec_box_hit(bv: BoundingVolume, ray: Ray, t_min: Tval, t_max: Tval) -> bool {
    let c0 = spec_clip(
        bv.min.x as int,
        bv.max.x as int,
        ray.origin.x as int,
        ray.direction.x as int,
        t_min,
        t_max,
    );
    if !c0.0 {
        false
    } else {
        let c1 = spec_clip(
            bv.min.y as int,
            bv.max.y as int,
            ray.origin.y as int,
            ray.direction.y as int,
            c0.1,
            c0.2,
        );
        if !c1.0 {
            false
        } else {
            spec_clip(
                bv.min.z as int,
                bv.max.z as int,
                ray.origin.z as int,
                ray.direction.z as int,
                c1.1,
                c1.2,
            ).0
        }
    }
}

/// For a nonzero direction component, lying in the slab is exactly lying
/// between the slab's entry and exit parameters.
proof fn lemma_axis_iff(bmin: int, bmax: int, o: int, d: int, lo: Tval, hi: Tval, t: Tval)
    by (nonlinear_arith)
    requires
        d != 0,
        t.den > 0,
        d > 0 ==> lo.num == bmin - o && lo.den == d && hi.num == bmax - o && hi.den == d,
        d < 0 ==> lo.num == o - bmax && lo.den == -d && hi.num == o - bmin && hi.den == -d,
    ensures
        axis_slab_ok(bmin, bmax, o, d, t) == (sle(lo, t) && sle(t, hi)),
{
}

/// The slab condition holds on a whole parameter interval once it holds
/// at both ends.
proof fn lemma_axis_convex(bmin: int, bmax: int, o: int, d: int, u: Tval, v: Tval, t: Tval)
    by (nonlinear_arith)
    requires
        u.den > 0,
        v.den > 0,
        t.den > 0,
        axis_slab_ok(bmin, bmax, o, d, u),
        axis_slab_ok(bmin, bmax, o, d, v),
        sle(u, t),
        sle(t, v),
    ensures
        axis_slab_ok(bmin, bmax, o, d, t),
{
}

/// A weak order with a nonnegative lower end keeps the upper end
/// nonnegative.
pub proof fn lemma_sle_nonneg(a: Tval, b: Tval)
    by (nonlinear_arith)
    requires
        a.den > 0,
        b.den > 0,
        a.num >= 0,
        sle(a, b),
    ensures
        b.num >= 0,
{
}

/// A strict order with a nonnegative lower end keeps the upper end
/// nonnegative.
pub proof fn lemma_slt_nonneg(a: Tval, b: Tval)
    by (nonlinear_arith)
    requires
        a.den > 0,
        b.den > 0,
        a.num >= 0,
        slt(a, b),
    ensures
        b.num >= 0,
{
}

#[derive(Clone, Copy, Debug, PartialEq, Eq, Structural)]
pub struct BoundingVolume {
    /// Corner with the smallest coordinates.
    pub min: Vec3,
    /// Corner with the largest coordinates.
    pub max: Vec3,
}

impl BoundingVolume {
    pub open spec fn wf(self) -> bool {
        &&& self.min.bounded(BOX_MAX as int)
        &&& self.max.bounded(BOX_MAX as int)
    }

    /// The point of `ray` at the rational `n / d` lies in this closed box.
    pub open spec fn contains_nd(self, ray: Ray, n: int, d: int) -> bool {
        &&& self.min.x * d <= ray.origin.x * d + n * ray.direction.x <= self.max.x * d
        &&& self.min.y * d <= ray.origin.y * d + n * ray.direction.y <= self.max.y * d
        &&& self.min.z * d <= ray.origin.z * d + n * ray.direction.z <= self.max.z * d
    }

    /// The point of `ray` at parameter `t` lies in this closed box.
    pub open spec fn contains_at(self, ray: Ray, t: Tval) -> bool {
        &&& axis_slab_ok(self.min.x as int, self.max.x as int, ray.origin.x as int, ray.direction.x as int, t)
        &&& axis_slab_ok(self.min.y as int, self.max.y as int, ray.origin.y as int, ray.direction.y as int, t)
        &&& axis_slab_ok(self.min.z as int, self.max.z as int, ray.origin.z as int, ray.direction.z as int, t)
    }

    /// The two containment spellings agree.
    pub proof fn lemma_contains_forms(self, ray: Ray, t: Tval)
        ensures
            self.contains_at(ray, t) == self.contains_nd(ray, t.num as int, t.den as int),
    {
    }

    /// Exact test of `contains_nd` for a valid parameter.
    pub fn check_contains(&self, ray: Ray, num: i128, den: i128) -> (r: bool)
        requires
            self.wf(),
            ray.wf(),
            -crate::rat::T_MAX <= num <= crate::rat::T_MAX,
            1 <= den <= crate::rat::T_MAX,
        ensures
            r == self.contains_nd(ray, num as int, den as int),
    {
        proof {
            let tm = crate::rat::T_MAX as int;
            crate::vec3::lemma_mul_bound(self.min.x as int, den as int, 0x2000, tm);
            crate::vec3::lemma_mul_bound(self.min.y as int, den as int, 0x2000, tm);
            crate::vec3::lemma_mul_bound(self.min.z as int, den as int, 0x2000, tm);
            crate::vec3::lemma_mul_bound(self.max.x as int, den as int, 0x2000, tm);
            crate::vec3::lemma_mul_bound(self.max.y as int, den as int, 0x2000, tm);
            crate::vec3::lemma_mul_bound(self.max.z as int, den as int, 0x2000, tm);
            crate::vec3::lemma_mul_bound(ray.origin.x as int, den as int, 0x2000, tm);
            crate::vec3::lemma_mul_bound(ray.origin.y as int, den as int, 0x2000, tm);
            crate::vec3::lemma_mul_bound(ray.origin.z as int, den as int, 0x2000, tm);
            crate::vec3::lemma_mul_bound(num as int, ray.direction.x as int, tm, 0x40_0000);
            crate::vec3::lemma_mul_bound(num as int, ray.direction.y as int, tm, 0x40_0000);
            crate::vec3::lemma_mul_bound(num as int, ray.direction.z as int, tm, 0x40_0000);
        }
        let px = (ray.origin.x as i128) * den + num * (ray.direction.x as i128);
        let py = (ray.origin.y as i128) * den + num * (ray.direction.y as i128);
        let pz = (ray.origin.z as i128) * den + num * (ray.direction.z as i128);
        (self.min.x as i128) * den <= px && px <= (self.max.x as i128) * den
            && (self.min.y as i128) * den <= py && py <= (self.max.y as i128) * den
            && (self.min.z as i128) * den <= pz && pz <= (self.max.z as i128) * den
    }

    /// This box contains the other box.
    pub open spec fn contains_box(self, inner: BoundingVolume) -> bool {
        &&& self.min.x <= inner.min.x && inner.max.x <= self.max.x
        &&& self.min.y <= inner.min.y && inner.max.y <= self.max.y
        &&& self.min.z <= inner.min.z && inner.max.z <= self.max.z
    }

    pub fn new(min: Vec3, max: Vec3) -> (r: BoundingVolume)
        ensures
            r == (BoundingVolume { min, max }),
    {
        BoundingVolume { min, max }
    }

    /// The smallest box containing both boxes.
    pub fn union(self, other: BoundingVolume) -> (r: BoundingVolume)
        ensures
            r.min.x == crate::vec3::smin(self.min.x as int, other.min.x as int),
            r.min.y == crate::vec3::smin(self.min.y as int, other.min.y as int),
            r.min.z == crate::vec3::smin(self.min.z as int, other.min.z as int),
            r.max.x == crate::vec3::smax(self.max.x as int, other.max.x as int),
            r.max.y == crate::vec3::smax(self.max.y as int, other.max.y as int),
            r.max.z == crate::vec3::smax(self.max.z as int, other.max.z as int),
            r.contains_box(self),
            r.contains_box(other),
            self.wf() && other.wf() ==> r.wf(),
    {
        BoundingVolume { min: self.min.min_v(other.min), max: self.max.max_v(other.max) }
    }

    /// Twice the centroid, exact on the grid; used only as a sorting key.
    pub open spec fn spec_position2(self, a: int) -> int {
        self.min.saxis(a) + self.max.saxis(a)
    }

    /// The anchor used to order volumes along an axis: twice the centroid
    /// coordinate, which sorts identically and stays exact.
    pub fn get_position(self) -> (r: Vec3)
        requires
            self.wf(),
        ensures
            r.x == self.spec_position2(0),
            r.y == self.spec_position2(1),
            r.z == self.spec_position2(2),
    {
        Vec3 { x: self.min.x + self.max.x, y: self.min.y + self.max.y, z: self.min.z + self.max.z }
    }

    /// Sort volumes by their centroid along the given axis (0, 1 or 2);
    /// any other axis leaves the list untouched, as the comparison
    /// degenerates to equality.
    pub fn sort_by_axis(vols: &mut Vec<BoundingVolume>, axis: u8)
        requires
            forall|i: int| 0 <= i < old(vols)@.len() ==> (#[trigger] old(vols)@[i]).wf(),
        ensures
            final(vols)@.len() == old(vols)@.len(),
            final(vols)@.to_multiset() == old(vols)@.to_multiset(),
            forall|i: int| 0 <= i < final(vols)@.len() ==> (#[trigger] final(vols)@[i]).wf(),
            axis <= 2 ==> sorted_by_centroid(final(vols)@, axis as int),
            axis <= 2 ==> crate::primitive::same_keyed_subsequences(
                final(vols)@,
                old(vols)@,
                centroid_key(axis as int),
            ),
            axis > 2 ==> final(vols)@ == old(vols)@,
    {
        if axis > 2 {
            return ;
        }
        let ghost orig = vols@;
        let n = vols.len();
        if n <= 1 {
            return ;
        }
        let mut i: usize = 1;
        while i < n
            invariant
                1 <= i <= n,
                n == vols@.len(),
                forall|q: int| 0 <= q < vols@.len() ==> (#[trigger] vols@[q]).wf(),
                vols@.to_multiset() == orig.to_multiset(),
                crate::primitive::same_keyed_subsequences(vols@, orig, centroid_key(axis as int)),
                sorted_by_centroid(vols@.subrange(0, i as int), axis as int),
                axis <= 2,
            decreases n - i,
        {
            let ghost before = vols@;
            let x = vols.remove(i);
            let ghost removed = vols@;
            proof {
                vstd::seq_lib::to_multiset_remove(before, i as int);
                assert forall|q: int| 0 <= q < i implies vols@[q] == before[q] by {}
            }
            let kx = x.get_position().axis(axis as usize);
            let mut p: usize = i;
            while p > 0
                invariant_except_break
                    p <= i,
                    i < n,
                    n == vols@.len() + 1,
                    forall|q: int| 0 <= q < vols@.len() ==> (#[trigger] vols@[q]).wf(),
                    vols@ == removed,
                    axis <= 2,
                    x.wf(),
                    kx == x.spec_position2(axis as int),
                    forall|q: int|
                        p <= q < i ==> (#[trigger] removed[q]).spec_position2(axis as int) > kx,
                ensures
                    p <= i,
                    vols@ == removed,
                    forall|q: int|
                        p <= q < i ==> (#[trigger] removed[q]).spec_position2(axis as int) > kx,
                    p > 0 ==> removed[p - 1].spec_position2(axis as int) <= kx,
                decreases p,
            {
                let kp = vols[p - 1].get_position().axis(axis as usize);
                if kp <= kx {
                    break ;
                }
                p = p - 1;
            }
            vols.insert(p, x);
            i = i + 1;
            proof {
                let cur = vols@;
                assert(cur == removed.insert(p as int, x));
                removed.insert_ensures(p as int, x);
                vstd::seq_lib::to_multiset_insert(removed, p as int, x);
                assert(before.to_multiset().count(x) > 0) by {
                    vstd::seq_lib::to_multiset_contains(before, x);
                    assert(before.contains(x));
                }
                assert(cur.to_multiset() =~= before.to_multiset());
                // Stability: the element moved only across strictly
                // greater keys, so every key value keeps its subsequence.
                assert(removed =~= before.remove(i as int - 1));
                assert(cur =~= before.remove(i as int - 1).insert(p as int, x));
                assert forall|q: int|
                    p <= q < i - 1 implies centroid_key(axis as int)(#[trigger] before[q])
                    > centroid_key(axis as int)(before[i as int - 1]) by {
                    assert(before[q] == removed[q]);
                }
                crate::primitive::lemma_stable_reinsert(
                    before,
                    i as int - 1,
                    p as int,
                    centroid_key(axis as int),
                );
                assert forall|kv: int| #[trigger] cur.filter(
                    crate::primitive::key_pred(centroid_key(axis as int), kv),
                ) == orig.filter(crate::primitive::key_pred(centroid_key(axis as int), kv)) by {
                    assert(cur.filter(crate::primitive::key_pred(centroid_key(axis as int), kv))
                        == before.filter(
                        crate::primitive::key_pred(centroid_key(axis as int), kv),
                    ));
                    assert(before.filter(crate::primitive::key_pred(centroid_key(axis as int), kv))
                        == orig.filter(crate::primitive::key_pred(centroid_key(axis as int), kv)));
                }
                assert(crate::primitive::same_keyed_subsequences(
                    cur,
                    orig,
                    centroid_key(axis as int),
                ));
                assert forall|q1: int, q2: int|
                    0 <= q1 < q2 < i implies (#[trigger] cur[q1]).spec_position2(axis as int) <= (
                #[trigger] cur[q2]).spec_position2(axis as int) by {
                    assert forall|q: int| 0 <= q < i - 1 implies removed[q] == before[q] by {}
                    if q1 < p && q2 < p {
                        assert(cur[q1] == removed[q1] && cur[q2] == removed[q2]);
                    } else if q1 < p && q2 == p {
                        assert(cur[q1] == removed[q1] && cur[q2] == x);
                        if p > 0 && q1 < p - 1 {
                            assert(removed[q1].spec_position2(axis as int)
                                <= removed[p - 1].spec_position2(axis as int));
                        }
                    } else if q1 < p && q2 > p {
                        assert(cur[q1] == removed[q1] && cur[q2] == removed[q2 - 1]);
                        if q1 < p - 1 {
                            assert(removed[q1].spec_position2(axis as int)
                                <= removed[p - 1].spec_position2(axis as int));
                        }
                        assert(removed[q2 - 1].spec_position2(axis as int) > kx);
                    } else if q1 == p {
                        assert(cur[q1] == x && cur[q2] == removed[q2 - 1]);
                        assert(removed[q2 - 1].spec_position2(axis as int) > kx);
                    } else {
                        assert(cur[q1] == removed[q1 - 1] && cur[q2] == removed[q2 - 1]);
                    }
                }
                assert(sorted_by_centroid(cur.subrange(0, i as int), axis as int)) by {
                    assert forall|q1: int, q2: int|
                        0 <= q1 < q2 < cur.subrange(0, i as int).len() implies (
                    #[trigger] cur.subrange(0, i as int)[q1]).spec_position2(axis as int) <= (
                    #[trigger] cur.subrange(0, i as int)[q2]).spec_position2(axis as int) by {
                        assert(cur.subrange(0, i as int)[q1] == cur[q1]);
                        assert(cur.subrange(0, i as int)[q2] == cur[q2]);
                    }
                }
                assert forall|q: int| 0 <= q < cur.len() implies (#[trigger] cur[q]).wf() by {
                    if q < p {
                        assert(cur[q] == removed[q]);
                    } else if q > p {
                        assert(cur[q] == removed[q - 1]);
                    }
                }
            }
        }
        proof {
            assert(vols@.subrange(0, n as int) =~= vols@);
        }
    }

    /// Test whether the ray passes through this box between `t_min` and
    /// `t_max`: clip the rational parameter interval against each slab.
    pub fn hit(&self, ray: Ray, t_min: Tval, t_max: Tval) -> (r: bool)
        requires
            self.wf(),
            ray.wf(),
            t_min.valid(),
            t_max.valid(),
            t_min.num >= 0,
            sle(t_min, t_max),
        ensures
            r == spec_box_hit(*self, ray, t_min, t_max),
            forall|t: Tval|
                t.den > 0 && sle(t_min, t) && sle(t, t_max) && #[trigger] self.contains_at(ray, t)
                    ==> r,
            r ==> exists|t: Tval|
                t.den > 0 && sle(t_min, t) && sle(t, t_max) && #[trigger] self.contains_at(ray, t),
    {
        let (ok0, u0, v0) = clip_axis(self.min.x, self.max.x, ray.origin.x, ray.direction.x, t_min, t_max);
        if !ok0 {
            return false;
        }
        let (ok1, u1, v1) = clip_axis(self.min.y, self.max.y, ray.origin.y, ray.direction.y, u0, v0);
        if !ok1 {
            return false;
        }
        let (ok2, u2, v2) = clip_axis(self.min.z, self.max.z, ray.origin.z, ray.direction.z, u1, v1);
        proof {
            if ok2 {
                // The final lower end is a parameter whose point lies in
                // every slab: the last axis holds at it outright, the
                // earlier ones because it stays inside their clipped
                // intervals, where the condition holds at both ends.
                let w = u2;
                assert(sle(t_min, w)) by {
                    crate::rat::lemma_nd_le_trans(
                        t_min.num as int,
                        t_min.den as int,
                        u0.num as int,
                        u0.den as int,
                        u1.num as int,
                        u1.den as int,
                    );
                    crate::rat::lemma_nd_le_trans(
                        t_min.num as int,
                        t_min.den as int,
                        u1.num as int,
                        u1.den as int,
                        w.num as int,
                        w.den as int,
                    );
                }
                assert(sle(w, v1)) by {
                    crate::rat::lemma_nd_le_trans(
                        w.num as int,
                        w.den as int,
                        v2.num as int,
                        v2.den as int,
                        v1.num as int,
                        v1.den as int,
                    );
                }
                assert(sle(w, v0)) by {
                    crate::rat::lemma_nd_le_trans(
                        w.num as int,
                        w.den as int,
                        v1.num as int,
                        v1.den as int,
                        v0.num as int,
                        v0.den as int,
                    );
                }
                assert(sle(w, t_max)) by {
                    crate::rat::lemma_nd_le_trans(
                        w.num as int,
                        w.den as int,
                        v0.num as int,
                        v0.den as int,
                        t_max.num as int,
                        t_max.den as int,
                    );
                }
                assert(axis_slab_ok(
                    self.min.z as int,
                    self.max.z as int,
                    ray.origin.z as int,
                    ray.direction.z as int,
                    w,
                )) by {
                    if ray.direction.z == 0 {
                        assert(self.min.z as int * w.den <= ray.origin.z as int * w.den
                            <= self.max.z as int * w.den) by (nonlinear_arith)
                            requires
                                w.den > 0,
                                self.min.z <= ray.origin.z <= self.max.z,
                        ;
                    }
                }
                assert(axis_slab_ok(
                    self.min.y as int,
                    self.max.y as int,
                    ray.origin.y as int,
                    ray.direction.y as int,
                    w,
                )) by {
                    if ray.direction.y == 0 {
                        assert(self.min.y as int * w.den <= ray.origin.y as int * w.den
                            <= self.max.y as int * w.den) by (nonlinear_arith)
                            requires
                                w.den > 0,
                                self.min.y <= ray.origin.y <= self.max.y,
                        ;
                    } else {
                        lemma_axis_convex(
                            self.min.y as int,
                            self.max.y as int,
                            ray.origin.y as int,
                            ray.direction.y as int,
                            u1,
                            v1,
                            w,
                        );
                    }
                }
                assert(axis_slab_ok(
                    self.min.x as int,
                    self.max.x as int,
                    ray.origin.x as int,
                    ray.direction.x as int,
                    w,
                )) by {
                    if ray.direction.x == 0 {
                        assert(self.min.x as int * w.den <= ray.origin.x as int * w.den
                            <= self.max.x as int * w.den) by (nonlinear_arith)
                            requires
                                w.den > 0,
                                self.min.x <= ray.origin.x <= self.max.x,
                        ;
                    } else {
                        assert(sle(u0, w)) by {
                            crate::rat::lemma_nd_le_trans(
                                u0.num as int,
                                u0.den as int,
                                u1.num as int,
                                u1.den as int,
                                w.num as int,
                                w.den as int,
                            );
                        }
                        lemma_axis_convex(
                            self.min.x as int,
                            self.max.x as int,
                            ray.origin.x as int,
                            ray.direction.x as int,
                            u0,
                            v0,
                            w,
                        );
                    }
                }
                assert(self.contains_at(ray, w));
            }
        }
        ok2
    }
}

/// The centroid anchor along an axis, as a key function.
pub open spec fn centroid_key(a: int) -> spec_fn(BoundingVolume) -> int {
    |v: BoundingVolume| v.spec_position2(a)
}

/// The volumes appear in order of their centroid on the axis.
pub open spec fn sorted_by_centroid(s: Seq<BoundingVolume>, a: int) -> bool {
    forall|i: int, j: int|
        0 <= i < j < s.len() ==> (#[trigger] s[i]).spec_position2(a) <= (
        #[trigger] s[j]).spec_position2(a)
}

/// Containment in an inner box implies containment in any box around it.
pub proof fn lemma_contains_box_at(outer: BoundingVolume, inner: BoundingVolume, ray: Ray, t: Tval)
    requires
        outer.contains_box(inner),
        inner.contains_at(ray, t),
        t.den > 0,
    ensures
        outer.contains_at(ray, t),
{
    assert(axis_slab_ok(outer.min.x as int, outer.max.x as int, ray.origin.x as int, ray.direction.x as int, t))
        by (nonlinear_arith)
        requires
            t.den > 0,
            outer.min.x <= inner.min.x,
            inner.max.x <= outer.max.x,
            axis_slab_ok(inner.min.x as int, inner.max.x as int, ray.origin.x as int, ray.direction.x as int, t),
    ;
    assert(axis_slab_ok(outer.min.y as int, outer.max.y as int, ray.origin.y as int, ray.direction.y as int, t))
        by (nonlinear_arith)
        requires
            t.den > 0,
            outer.min.y <= inner.min.y,
            inner.max.y <= outer.max.y,
            axis_slab_ok(inner.min.y as int, inner.max.y as int, ray.origin.y as int, ray.direction.y as int, t),
    ;
    assert(axis_slab_ok(outer.min.z as int, outer.max.z as int, ray.origin.z as int, ray.direction.z as int, t))
        by (nonlinear_arith)
        requires
            t.den > 0,
            outer.min.z <= inner.min.z,
            inner.max.z <= outer.max.z,
            axis_slab_ok(inner.min.z as int, inner.max.z as int, ray.origin.z as int, ray.direction.z as int, t),
    ;
}

/// Clip the parameter interval `[t0, t1]` against one slab.  On success the
/// returned interval still brackets every parameter whose point lies in the
/// slab; on failure no such parameter exists in `[t0, t1]` at all.
fn clip_axis(bmin: i64, bmax: i64, o: i64, d: i64, t0: Tval, t1: Tval) -> (res: (bool, Tval, Tval))
    requires
        -BOX_MAX <= bmin <= BOX_MAX,
        -BOX_MAX <= bmax <= BOX_MAX,
        -ORIGIN_MAX <= o <= ORIGIN_MAX,
        -DIR_MAX <= d <= DIR_MAX,
        t0.valid(),
        t1.valid(),
        t0.num >= 0,
        sle(t0, t1),
    ensures
        res == spec_clip(bmin as int, bmax as int, o as int, d as int, t0, t1),
        res.0 ==> res.1.valid() && res.2.valid() && res.1.num >= 0,
        res.0 ==> sle(t0, res.1) && sle(res.2, t1) && sle(res.1, res.2),
        res.0 && d != 0 ==> axis_slab_ok(bmin as int, bmax as int, o as int, d as int, res.1)
            && axis_slab_ok(bmin as int, bmax as int, o as int, d as int, res.2),
        res.0 && d == 0 ==> bmin <= o <= bmax,
        forall|t: Tval|
            t.den > 0 && sle(t0, t) && sle(t, t1) && #[trigger] axis_slab_ok(
                bmin as int,
                bmax as int,
                o as int,
                d as int,
                t,
            ) ==> res.0 && sle(res.1, t) && sle(t, res.2),
{
    if d == 0 {
        if bmin <= o && o <= bmax {
            (true, t0, t1)
        } else {
            proof {
                assert forall|t: Tval|
                    t.den > 0 && sle(t0, t) && sle(t, t1) && #[trigger] axis_slab_ok(
                        bmin as int,
                        bmax as int,
                        o as int,
                        d as int,
                        t,
                    ) implies false by {
                    assert(false) by (nonlinear_arith)
                        requires
                            t.den > 0,
                            bmin as int * t.den <= o as int * t.den + t.num * (0int),
                            o as int * t.den + t.num * (0int) <= bmax as int * t.den,
                            !(bmin <= o && o <= bmax),
                    ;
                }
            }
            (false, t0, t1)
        }
    } else {
        let (lo, hi): (Tval, Tval) = if d > 0 {
            (
                Tval { num: (bmin - o) as i128, den: d as i128 },
                Tval { num: (bmax - o) as i128, den: d as i128 },
            )
        } else {
            (
                Tval { num: (o - bmax) as i128, den: (-d) as i128 },
                Tval { num: (o - bmin) as i128, den: (-d) as i128 },
            )
        };
        let nt0 = if t0.lt(lo) {
            lo
        } else {
            t0
        };
        let nt1 = if hi.lt(t1) {
            hi
        } else {
            t1
        };
        let ok = if nt1.lt(nt0) {
            false
        } else {
            nt1.num >= 0
        };
        proof {
            if slt(t0, lo) {
                lemma_slt_nonneg(t0, lo);
            }
            if ok {
                assert(sle(nt0, nt1));
                assert(sle(lo, nt0) && sle(nt0, hi)) by {
                    crate::rat::lemma_nd_le_trans(
                        nt0.num as int,
                        nt0.den as int,
                        nt1.num as int,
                        nt1.den as int,
                        hi.num as int,
                        hi.den as int,
                    );
                }
                assert(sle(lo, nt1)) by {
                    crate::rat::lemma_nd_le_trans(
                        lo.num as int,
                        lo.den as int,
                        nt0.num as int,
                        nt0.den as int,
                        nt1.num as int,
                        nt1.den as int,
                    );
                }
                lemma_axis_iff(bmin as int, bmax as int, o as int, d as int, lo, hi, nt0);
                lemma_axis_iff(bmin as int, bmax as int, o as int, d as int, lo, hi, nt1);
            }
            assert forall|t: Tval|
                t.den > 0 && sle(t0, t) && sle(t, t1) && #[trigger] axis_slab_ok(
                    bmin as int,
                    bmax as int,
                    o as int,
                    d as int,
                    t,
                ) implies ok && sle(nt0, t) && sle(t, nt1) by {
                assert(sle(lo, t) && sle(t, hi)) by (nonlinear_arith)
                    requires
                        t.den > 0,
                        d != 0,
                        axis_slab_ok(bmin as int, bmax as int, o as int, d as int, t),
                        d > 0 ==> lo == (Tval { num: (bmin - o) as i128, den: d as i128 }) && hi
                            == (Tval { num: (bmax - o) as i128, den: d as i128 }),
                        d < 0 ==> lo == (Tval { num: (o - bmax) as i128, den: (-d) as i128 }) && hi
                            == (Tval { num: (o - bmin) as i128, den: (-d) as i128 }),
                ;
                assert(sle(nt0, t) && sle(t, nt1));
                lemma_sle_nonneg(t0, t);
                lemma_sle_nonneg(t, nt1);
                assert(!slt(nt1, nt0)) by (nonlinear_arith)
                    requires
                        t.den > 0,
                        nt0.den > 0,
                        nt1.den > 0,
                        sle(nt0, t),
                        sle(t, nt1),
                ;
            }
        }
        (ok, nt0, nt1)
    }
}

} // verus!
