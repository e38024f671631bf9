//! The closed set of indivisible renderable shapes, and flat lists of
//! them with the closest-wins scan.
//!
//! A `Primitive` is what intersection ultimately runs on: spheres and
//! planes stand for themselves, meshes dissolve into their triangles
//! before they reach this level.  `HittableList::hit` is the brute-force
//! reference semantics of a ray cast: every primitive is tested and the
//! strictly closest hit wins, the earliest on equal distance.

use vstd::prelude::*;
use crate::bounding_volume::BoundingVolume;
use crate::hit::HitData;
use crate::hit::sreduce;
use crate::materials::Material;
use crate::plane::Plane;
use crate::rat::Tval;
use crate::rat::capped;
use crate::rat::nd_le;
use crate::rat::nd_lt;
use crate::ray::Ray;
use crate::sphere::Sphere;
use crate::triangle::Triangle;
use crate::vec3::NORMAL_MAX;
use crate::vec3::Vec3;

verus! {

#[derive(Clone, Copy, Debug, PartialEq, Eq, Structural)]
pub enum Primitive {
    Sphere(Sphere),
    Plane(Plane),
    Triangle(Triangle),
}

impl Primitive {
    pub open spec fn wf(self) -> bool {
        match self {
            Primitive::Sphere(s) => s.wf(),
            Primitive::Plane(p) => p.wf(),
            Primitive::Triangle(t) => t.wf(),
        }
    }

    pub open spec fn smaterial(self) -> Material {
        match self {
            Primitive::Sphere(s) => s.material,
            Primitive::Plane(p) => p.material,
            Primitive::Triangle(t) => t.material,
        }
    }

    /// The exact rational parameter this primitive reports for the ray,
    /// if any.
    pub open spec fn hit_t(self, ray: Ray, t_min: Tval, t_max: Tval) -> Option<(int, int)> {
        match self {
            Primitive::Sphere(s) => match s.hit_num(ray, t_min, t_max) {
                Some(n) => Some((n, s.hit_den(ray))),
                Option::None => Option::None,
            },
            Primitive::Plane(p) => p.hit_t(ray, t_min, t_max),
            Primitive::Triangle(t) => t.hit_t(ray, t_min, t_max),
        }
    }

    /// This primitive's bounding box.
    pub open spec fn sbox(self) -> BoundingVolume {
        match self {
            Primitive::Sphere(s) => BoundingVolume {
                min: Vec3 {
                    x: (s.position.x - s.radius) as i64,
                    y: (s.position.y - s.radius) as i64,
                    z: (s.position.z - s.radius) as i64,
                },
                max: Vec3 {
                    x: (s.position.x + s.radius) as i64,
                    y: (s.position.y + s.radius) as i64,
                    z: (s.position.z + s.radius) as i64,
                },
            },
            Primitive::Plane(p) => p.sbox(),
            Primitive::Triangle(t) => t.sbox(),
        }
    }

    /// Anchor position used for ordering along an axis.
    pub open spec fn spos(self, a: int) -> int {
        match self {
            Primitive::Sphere(s) => s.position.saxis(a),
            Primitive::Plane(p) => p.position.saxis(a),
            Primitive::Triangle(t) => (t.v0.saxis(a) + t.v1.saxis(a) + t.v2.saxis(a)) / 3,
        }
    }

    pub fn get_position(&self) -> (r: Vec3)
        requires
            self.wf(),
        ensures
            r.x == self.spos(0),
            r.y == self.spos(1),
            r.z == self.spos(2),
    {
        match self {
            Primitive::Sphere(s) => s.get_position(),
            Primitive::Plane(p) => p.get_position(),
            Primitive::Triangle(t) => t.get_position(),
        }
    }

    pub fn get_bounding_vol(&self) -> (r: BoundingVolume)
        requires
            self.wf(),
        ensures
            r == self.sbox(),
            r.wf(),
    {
        match self {
            Primitive::Sphere(s) => s.get_bounding_vol(),
            Primitive::Plane(p) => p.get_bounding_vol(),
            Primitive::Triangle(t) => t.get_bounding_vol(),
        }
    }

    /// Intersect the ray, dispatching on the shape.
    pub fn hit(&self, ray: Ray, t_min: Tval, t_max: Tval) -> (h: HitData)
        requires
            self.wf(),
            ray.wf(),
            t_min.valid(),
            t_min.num >= 0,
            t_max.valid(),
            capped(t_max),
        ensures
            h.did_hit == self.hit_t(ray, t_min, t_max) is Some,
            !h.did_hit ==> h == HitData::spec_miss(),
            h.did_hit ==> hit_matches(*self, ray, t_min, t_max, h),
            h.did_hit ==> h.t.valid() && h.t.num >= 0 && capped(h.t),
            h.did_hit ==> crate::hit::hit_sane(h),
            h == spec_hit_data(*self, ray, t_min, t_max),
    {
        let h = match self {
            Primitive::Sphere(s) => s.hit(ray, t_min, t_max),
            Primitive::Plane(p) => p.hit(ray, t_min, t_max),
            Primitive::Triangle(t) => t.hit(ray, t_min, t_max),
        };
        proof {
            if h.did_hit {
                let ghost t = h.t;
                assert(h.hit_point == spec_hit_data(*self, ray, t_min, t_max).hit_point);
                match *self {
                    Primitive::Sphere(s) => {
                        crate::bounding_volume::lemma_slt_nonneg(t_min, h.t);
                        crate::rat::lemma_capped_mono(h.t, t_max);
                        crate::sphere::lemma_sphere_root_in_bbox(s, ray, h.t);
                        assert(self.sbox().contains_at(ray, h.t));
                        self.sbox().lemma_contains_forms(ray, h.t);
                    },
                    Primitive::Plane(p) => {
                        crate::bounding_volume::lemma_slt_nonneg(t_min, h.t);
                        crate::rat::lemma_capped_mono(h.t, t_max);
                    },
                    Primitive::Triangle(t) => {
                        crate::bounding_volume::lemma_sle_nonneg(t_min, h.t);
                        crate::rat::lemma_capped_mono(h.t, t_max);
                    },
                }
            }
        }
        h
    }
}

/// The surface direction recorded in `h` is the one this primitive's
/// intersection defines.
pub open spec fn normal_matches(p: Primitive, ray: Ray, h: HitData) -> bool {
    match p {
        Primitive::Sphere(s) => (h.normal.x as int, h.normal.y as int, h.normal.z as int)
            == sreduce(
            ray.at_scaled(h.t, 0) - s.position.x * h.t.den,
            ray.at_scaled(h.t, 1) - s.position.y * h.t.den,
            ray.at_scaled(h.t, 2) - s.position.z * h.t.den,
            NORMAL_MAX as int,
        ),
        Primitive::Plane(p) => h.normal == p.normal,
        Primitive::Triangle(t) => if t.smooth {
            (h.normal.x as int, h.normal.y as int, h.normal.z as int) == sreduce(
                t.interp_normal(ray, 0),
                t.interp_normal(ray, 1),
                t.interp_normal(ray, 2),
                NORMAL_MAX as int,
            )
        } else {
            h.normal == t.surface_normal
        },
    }
}

/// The surface direction a hit on this primitive carries: the reduced
/// center-to-point direction of a sphere, the plane's stored facing, the
/// triangle's interpolated or face direction.
pub open spec fn spec_normal(p: Primitive, ray: Ray, t: Tval) -> Vec3 {
    match p {
        Primitive::Sphere(s) => crate::vec3::vec_of3(
            sreduce(
                ray.at_scaled(t, 0) - s.position.x * t.den,
                ray.at_scaled(t, 1) - s.position.y * t.den,
                ray.at_scaled(t, 2) - s.position.z * t.den,
                NORMAL_MAX as int,
            ),
        ),
        Primitive::Plane(pl) => pl.normal,
        Primitive::Triangle(tr) => if tr.smooth {
            crate::vec3::vec_of3(
                sreduce(
                    tr.interp_normal(ray, 0),
                    tr.interp_normal(ray, 1),
                    tr.interp_normal(ray, 2),
                    NORMAL_MAX as int,
                ),
            )
        } else {
            tr.surface_normal
        },
    }
}

/// The complete record a primitive produces for a ray: the sentinel on a
/// miss, else the exact parameter, the rounded point, the surface
/// direction and the material.  Every intersection routine returns
/// exactly this value.
pub open spec fn spec_hit_data(p: Primitive, ray: Ray, t_min: Tval, t_max: Tval) -> HitData {
    match p.hit_t(ray, t_min, t_max) {
        Option::None => HitData::spec_miss(),
        Some(nd) => {
            let t = Tval { num: nd.0 as i128, den: nd.1 as i128 };
            HitData {
                t,
                did_hit: true,
                ray,
                hit_point: Vec3 {
                    x: (ray.at_scaled(t, 0) / (t.den as int)) as i64,
                    y: (ray.at_scaled(t, 1) / (t.den as int)) as i64,
                    z: (ray.at_scaled(t, 2) / (t.den as int)) as i64,
                },
                normal: spec_normal(p, ray, t),
                mat: p.smaterial(),
            }
        },
    }
}

/// The left-to-right closest-wins scan, as a value: each primitive's
/// record replaces the running best exactly when it hits strictly
/// closer.
pub open spec fn spec_scan(prims: Seq<Primitive>, ray: Ray, t_min: Tval, t_max: Tval) -> HitData
    decreases prims.len(),
{
    if prims.len() == 0 {
        HitData::spec_miss()
    } else {
        let prev = spec_scan(prims.drop_last(), ray, t_min, t_max);
        let cur = spec_hit_data(prims.last(), ray, t_min, t_max);
        if cur.did_hit && crate::rat::slt(cur.t, prev.t) {
            cur
        } else {
            prev
        }
    }
}

/// `h` is exactly the record that `p` produces for this ray: the reported
/// parameter, the rounded point on the ray, the surface direction and the
/// material — and, for a shape that honours its box, a point inside it.
pub open spec fn hit_matches(p: Primitive, ray: Ray, t_min: Tval, t_max: Tval, h: HitData) -> bool {
    &&& p.hit_t(ray, t_min, t_max) == Some((h.t.num as int, h.t.den as int))
    &&& h.did_hit
    &&& h.mat == p.smaterial()
    &&& h.ray == ray
    &&& h.hit_point.x == ray.at_scaled(h.t, 0) / (h.t.den as int)
    &&& h.hit_point.y == ray.at_scaled(h.t, 1) / (h.t.den as int)
    &&& h.hit_point.z == ray.at_scaled(h.t, 2) / (h.t.den as int)
    &&& normal_matches(p, ray, h)
    &&& !(p is Plane) ==> p.sbox().contains_nd(ray, h.t.num as int, h.t.den as int)
}

/// `h` is the record of the first closest hit among `prims`, witnessed by
/// index `i`: every earlier primitive hits strictly farther, no primitive
/// hits strictly closer.
pub open spec fn is_winner(
    prims: Seq<Primitive>,
    ray: Ray,
    t_min: Tval,
    t_max: Tval,
    h: HitData,
    i: int,
) -> bool {
    &&& 0 <= i < prims.len()
    &&& hit_matches(prims[i], ray, t_min, t_max, h)
    &&& forall|j: int|
        0 <= j < i && #[trigger] prims[j].hit_t(ray, t_min, t_max) is Some ==> nd_lt(
            h.t.num as int,
            h.t.den as int,
            prims[j].hit_t(ray, t_min, t_max).unwrap().0,
            prims[j].hit_t(ray, t_min, t_max).unwrap().1,
        )
    &&& forall|j: int|
        0 <= j < prims.len() && #[trigger] prims[j].hit_t(ray, t_min, t_max) is Some ==> nd_le(
            h.t.num as int,
            h.t.den as int,
            prims[j].hit_t(ray, t_min, t_max).unwrap().0,
            prims[j].hit_t(ray, t_min, t_max).unwrap().1,
        )
}

/// No primitive in the sequence is a plane.  Planes are the one shape
/// whose hits may leave their bounding box, so only plane-free geometry
/// enjoys the traversal-equals-scan guarantee.
pub open spec fn no_planes(prims: Seq<Primitive>) -> bool {
    forall|i: int| 0 <= i < prims.len() ==> !((#[trigger] prims[i]) is Plane)
}

/// `h` reports the smallest parameter any of `prims` reports, without
/// fixing which of several equally close primitives supplied the record.
pub open spec fn is_min_hit(
    prims: Seq<Primitive>,
    ray: Ray,
    t_min: Tval,
    t_max: Tval,
    h: HitData,
) -> bool {
    &&& h.t.valid()
    &&& h.did_hit ==> h.t.num >= 0 && capped(h.t)
    &&& h.did_hit ==> exists|i: int|
        0 <= i < prims.len() && (#[trigger] prims[i]).hit_t(ray, t_min, t_max) == Some(
            (h.t.num as int, h.t.den as int),
        )
    &&& h.did_hit ==> forall|j: int|
        0 <= j < prims.len() && #[trigger] prims[j].hit_t(ray, t_min, t_max) is Some ==> nd_le(
            h.t.num as int,
            h.t.den as int,
            prims[j].hit_t(ray, t_min, t_max).unwrap().0,
            prims[j].hit_t(ray, t_min, t_max).unwrap().1,
        )
    &&& !h.did_hit ==> h == HitData::spec_miss() && forall|j: int|
        0 <= j < prims.len() ==> #[trigger] prims[j].hit_t(ray, t_min, t_max) is None
}

/// The first-closest contract refines the minimal-parameter contract.
pub proof fn lemma_best_is_min(
    prims: Seq<Primitive>,
    ray: Ray,
    t_min: Tval,
    t_max: Tval,
    h: HitData,
)
    requires
        is_best_hit(prims, ray, t_min, t_max, h),
    ensures
        is_min_hit(prims, ray, t_min, t_max, h),
{
    if h.did_hit {
        let i = choose|i: int| is_winner(prims, ray, t_min, t_max, h, i);
        assert(prims[i].hit_t(ray, t_min, t_max) == Some((h.t.num as int, h.t.den as int)));
    }
}

/// Facts that hold of any reported parameter: it fits the `Tval` range,
/// it lies weakly within the query range, and — for shapes other than
/// planes — its point lies in the shape's own box.
pub proof fn lemma_hit_t_some_props(p: Primitive, ray: Ray, t_min: Tval, t_max: Tval)
    requires
        p.wf(),
        ray.wf(),
        t_min.valid(),
        t_min.num >= 0,
        t_max.valid(),
        p.hit_t(ray, t_min, t_max) is Some,
    ensures
        -crate::rat::T_MAX <= p.hit_t(ray, t_min, t_max).unwrap().0 <= crate::rat::T_MAX,
        1 <= p.hit_t(ray, t_min, t_max).unwrap().1 <= crate::rat::T_MAX,
        t_min.num * p.hit_t(ray, t_min, t_max).unwrap().1 <= p.hit_t(ray, t_min, t_max).unwrap().0
            * t_min.den,
        p.hit_t(ray, t_min, t_max).unwrap().0 * t_max.den <= t_max.num * p.hit_t(
            ray,
            t_min,
            t_max,
        ).unwrap().1,
        !(p is Plane) ==> p.sbox().contains_nd(
            ray,
            p.hit_t(ray, t_min, t_max).unwrap().0,
            p.hit_t(ray, t_min, t_max).unwrap().1,
        ),
{
    let (n, d) = p.hit_t(ray, t_min, t_max).unwrap();
    match p {
        Primitive::Sphere(s) => {
            crate::sphere::lemma_coeff_bounds(s, ray);
            let disc = s.disc(ray);
            let sq = crate::rat::sqrt_floor(disc);
            crate::rat::lemma_sqrt_floor_exists(disc);
            assert(sq < 0x100_0000_0000) by (nonlinear_arith)
                requires
                    0 <= sq,
                    sq * sq <= disc,
                    disc < 0x1_0000_0000_0000_0000_0000,
            ;
            let tg = Tval { num: n as i128, den: d as i128 };
            assert(tg.num == n && tg.den == d);
            crate::sphere::lemma_sphere_root_in_bbox(s, ray, tg);
            let bv = p.sbox();
            assert(bv.contains_at(ray, tg));
            bv.lemma_contains_forms(ray, tg);
        },
        Primitive::Plane(pl) => {
            crate::vec3::lemma_mul_bound(ray.direction.x as int, pl.normal.x as int, 0x40_0000, 0x1000);
            crate::vec3::lemma_mul_bound(ray.direction.y as int, pl.normal.y as int, 0x40_0000, 0x1000);
            crate::vec3::lemma_mul_bound(ray.direction.z as int, pl.normal.z as int, 0x40_0000, 0x1000);
            crate::vec3::lemma_mul_bound(pl.normal.x as int, pl.position.x - ray.origin.x, 0x1000, 0x3000);
            crate::vec3::lemma_mul_bound(pl.normal.y as int, pl.position.y - ray.origin.y, 0x1000, 0x3000);
            crate::vec3::lemma_mul_bound(pl.normal.z as int, pl.position.z - ray.origin.z, 0x1000, 0x3000);
        },
        Primitive::Triangle(t) => {
            crate::triangle::lemma_det_bounds(t, ray);
        },
    }
}

/// The per-axis minimum of the primitives' box corners: the tight lower
/// corner of their common box; the inverted sentinel on an empty list.
pub open spec fn boxes_lo(prims: Seq<Primitive>, a: int) -> int
    decreases prims.len(),
{
    if prims.len() == 0 {
        crate::bounding_volume::BOX_MAX as int
    } else {
        crate::vec3::smin(boxes_lo(prims.drop_last(), a), prims.last().sbox().min.saxis(a))
    }
}

/// The per-axis maximum of the primitives' box corners.
pub open spec fn boxes_hi(prims: Seq<Primitive>, a: int) -> int
    decreases prims.len(),
{
    if prims.len() == 0 {
        -(crate::bounding_volume::BOX_MAX as int)
    } else {
        crate::vec3::smax(boxes_hi(prims.drop_last(), a), prims.last().sbox().max.saxis(a))
    }
}

/// The anchor position along an axis, as a key function.
pub open spec fn pos_key(a: int) -> spec_fn(Primitive) -> int {
    |p: Primitive| p.spos(a)
}

/// The predicate selecting the elements holding one key value.
pub open spec fn key_pred<A>(key: spec_fn(A) -> int, kv: int) -> spec_fn(A) -> bool {
    |e: A| key(e) == kv
}

/// Two sequences hold, for every key value, the same subsequence of
/// elements with that key: a keyed sort is stable exactly when its
/// output relates to its input this way.
pub open spec fn same_keyed_subsequences<A>(s1: Seq<A>, s2: Seq<A>, key: spec_fn(A) -> int) -> bool {
    forall|kv: int| #[trigger] s1.filter(key_pred(key, kv)) == s2.filter(key_pred(key, kv))
}

/// One insertion-sort step is stable: taking an element out and putting
/// it back earlier, across elements with strictly greater keys only,
/// keeps every key value's subsequence intact.
pub proof fn lemma_stable_reinsert<A>(before: Seq<A>, i: int, p: int, key: spec_fn(A) -> int)
    requires
        0 <= p <= i < before.len(),
        forall|q: int| p <= q < i ==> key(#[trigger] before[q]) > key(before[i]),
    ensures
        same_keyed_subsequences(
            before.remove(i).insert(p, before[i]),
            before,
            key,
        ),
{
    let x = before[i];
    let after = before.remove(i).insert(p, x);
    assert forall|kv: int| #[trigger] after.filter(key_pred(key, kv)) == before.filter(
        key_pred(key, kv),
    ) by {
        let pred = key_pred(key, kv);
        let b0a = before.subrange(0, p);
        let b0b = before.subrange(p, i);
        let b2 = before.subrange(i + 1, before.len() as int);
        assert(before =~= (b0a + b0b) + (seq![x] + b2));
        assert(after =~= (b0a + seq![x]) + (b0b + b2));
        Seq::filter_distributes_over_add(b0a + b0b, seq![x] + b2, pred);
        Seq::filter_distributes_over_add(b0a, b0b, pred);
        Seq::filter_distributes_over_add(seq![x], b2, pred);
        Seq::filter_distributes_over_add(b0a + seq![x], b0b + b2, pred);
        Seq::filter_distributes_over_add(b0a, seq![x], pred);
        Seq::filter_distributes_over_add(b0b, b2, pred);
        if kv == key(x) {
            assert(b0b.all(|e: A| !pred(e))) by {
                assert forall|q: int| 0 <= q < b0b.len() implies !pred(#[trigger] b0b[q]) by {
                    assert(b0b[q] == before[p + q]);
                }
            }
            b0b.lemma_all_neg_filter_empty(pred);
            assert(b0b.filter(pred) =~= Seq::<A>::empty());
            assert(after.filter(pred) =~= before.filter(pred));
        } else {
            assert(seq![x].all(|e: A| !pred(e))) by {
                assert forall|q: int| 0 <= q < 1 implies !pred(#[trigger] seq![x][q]) by {}
            }
            seq![x].lemma_all_neg_filter_empty(pred);
            assert(seq![x].filter(pred) =~= Seq::<A>::empty());
            assert(after.filter(pred) =~= before.filter(pred));
        }
    }
}

/// The primitives appear in order of their anchor position on the axis.
pub open spec fn sorted_by_pos(s: Seq<Primitive>, a: int) -> bool {
    forall|i: int, j: int|
        0 <= i < j < s.len() ==> (#[trigger] s[i]).spos(a) <= (#[trigger] s[j]).spos(a)
}

/// The complete contract of a closest-wins scan over `prims`.
pub open spec fn is_best_hit(
    prims: Seq<Primitive>,
    ray: Ray,
    t_min: Tval,
    t_max: Tval,
    h: HitData,
) -> bool {
    &&& h.t.valid()
    &&& h.did_hit ==> h.t.num >= 0 && capped(h.t)
    &&& h.did_hit ==> exists|i: int| #[trigger] is_winner(prims, ray, t_min, t_max, h, i)
    &&& !h.did_hit ==> h == HitData::spec_miss() && forall|j: int|
        0 <= j < prims.len() ==> #[trigger] prims[j].hit_t(ray, t_min, t_max) is None
}

/// A list of primitives: the flat, brute-force view of a scene.
#[derive(Clone, Debug)]
pub struct HittableList {
    pub data: Vec<Primitive>,
}

impl HittableList {
    /// The primitives in order.
    pub open spec fn prims(self) -> Seq<Primitive> {
        self.data@
    }

    pub open spec fn wf(self) -> bool {
        forall|i: int| 0 <= i < self.prims().len() ==> (#[trigger] self.prims()[i]).wf()
    }

    pub fn new() -> (r: HittableList)
        ensures
            r.prims() == Seq::<Primitive>::empty(),
            r.wf(),
    {
        let r = HittableList { data: Vec::new() };
        proof {
            assert(r.prims() =~= Seq::<Primitive>::empty());
        }
        r
    }

    pub fn len(&self) -> (r: usize)
        ensures
            r == self.prims().len(),
    {
        self.data.len()
    }

    pub fn get(&self, i: usize) -> (r: Primitive)
        requires
            i < self.prims().len(),
        ensures
            r == self.prims()[i as int],
    {
        self.data[i]
    }

    pub fn push(&mut self, p: Primitive)
        ensures
            final(self).prims() == old(self).prims().push(p),
            old(self).wf() && p.wf() ==> final(self).wf(),
    {
        self.data.push(p);
        proof {
            if old(self).wf() && p.wf() {
                assert forall|i: int| 0 <= i < self.prims().len() implies (
                #[trigger] self.prims()[i]).wf() by {
                    if i < old(self).prims().len() {
                        assert(self.prims()[i] == old(self).prims()[i]);
                    }
                }
            }
        }
    }

    pub fn extend(&mut self, objects: HittableList)
        ensures
            final(self).prims() == old(self).prims() + objects.prims(),
            old(self).wf() && objects.wf() ==> final(self).wf(),
    {
        let mut k: usize = 0;
        let n = objects.data.len();
        while k < n
            invariant
                k <= n,
                n == objects.prims().len(),
                self.prims() == old(self).prims() + objects.prims().subrange(0, k as int),
            decreases n - k,
        {
            self.data.push(objects.data[k]);
            k = k + 1;
            proof {
                assert(self.prims() =~= old(self).prims() + objects.prims().subrange(
                    0,
                    k as int,
                ));
            }
        }
        proof {
            assert(objects.prims().subrange(0, n as int) =~= objects.prims());
            if old(self).wf() && objects.wf() {
                assert forall|i: int| 0 <= i < self.prims().len() implies (
                #[trigger] self.prims()[i]).wf() by {
                    if i < old(self).prims().len() {
                        assert(self.prims()[i] == old(self).prims()[i]);
                    } else {
                        assert(self.prims()[i] == objects.prims()[i - old(self).prims().len()]);
                    }
                }
            }
        }
    }

    /// A copy of the sublist `[start, end)`.
    pub fn get_slice_copy(&self, start: usize, end: usize) -> (r: HittableList)
        requires
            start <= end <= self.prims().len(),
        ensures
            r.prims() == self.prims().subrange(start as int, end as int),
            self.wf() ==> r.wf(),
    {
        let mut out: Vec<Primitive> = Vec::new();
        let mut k: usize = start;
        while k < end
            invariant
                start <= k <= end <= self.prims().len(),
                out@ == self.prims().subrange(start as int, k as int),
            decreases end - k,
        {
            out.push(self.data[k]);
            k = k + 1;
            proof {
                assert(out@ =~= self.prims().subrange(start as int, k as int));
            }
        }
        let r = HittableList { data: out };
        proof {
            if self.wf() {
                assert forall|i: int| 0 <= i < r.prims().len() implies (#[trigger] r.prims()[i]).wf()
                by {
                    assert(r.prims()[i] == self.prims()[start + i]);
                }
            }
        }
        r
    }

    /// The smallest box around every contained primitive; the inverted
    /// sentinel box when the list is empty.
    pub fn get_bounding_vol(&self) -> (r: BoundingVolume)
        requires
            self.wf(),
        ensures
            r.min.x == boxes_lo(self.prims(), 0),
            r.min.y == boxes_lo(self.prims(), 1),
            r.min.z == boxes_lo(self.prims(), 2),
            r.max.x == boxes_hi(self.prims(), 0),
            r.max.y == boxes_hi(self.prims(), 1),
            r.max.z == boxes_hi(self.prims(), 2),
            r.wf(),
            forall|i: int|
                0 <= i < self.prims().len() ==> r.contains_box(
                    (#[trigger] self.prims()[i]).sbox(),
                ),
    {
        let mut acc = BoundingVolume {
            min: Vec3 {
                x: crate::bounding_volume::BOX_MAX,
                y: crate::bounding_volume::BOX_MAX,
                z: crate::bounding_volume::BOX_MAX,
            },
            max: Vec3 {
                x: -crate::bounding_volume::BOX_MAX,
                y: -crate::bounding_volume::BOX_MAX,
                z: -crate::bounding_volume::BOX_MAX,
            },
        };
        let n = self.data.len();
        let mut k: usize = 0;
        proof {
            assert(self.prims().subrange(0, 0) =~= Seq::<Primitive>::empty());
        }
        while k < n
            invariant
                k <= n,
                n == self.prims().len(),
                self.wf(),
                acc.wf(),
                acc.min.x == boxes_lo(self.prims().subrange(0, k as int), 0),
                acc.min.y == boxes_lo(self.prims().subrange(0, k as int), 1),
                acc.min.z == boxes_lo(self.prims().subrange(0, k as int), 2),
                acc.max.x == boxes_hi(self.prims().subrange(0, k as int), 0),
                acc.max.y == boxes_hi(self.prims().subrange(0, k as int), 1),
                acc.max.z == boxes_hi(self.prims().subrange(0, k as int), 2),
                forall|i: int|
                    0 <= i < k ==> acc.contains_box((#[trigger] self.prims()[i]).sbox()),
            decreases n - k,
        {
            let bv = self.data[k].get_bounding_vol();
            acc = acc.union(bv);
            k = k + 1;
            proof {
                let cur = self.prims().subrange(0, k as int);
                assert(cur.drop_last() =~= self.prims().subrange(0, k as int - 1));
                assert(cur.last() == self.prims()[k as int - 1]);
            }
        }
        proof {
            assert(self.prims().subrange(0, n as int) =~= self.prims());
        }
        acc
    }

    /// Sort the primitives by their anchor position along the given axis
    /// (0, 1 or 2); any other axis leaves the list untouched, as the
    /// comparison degenerates to equality.
    #[verifier::rlimit(40)]
    pub fn sort_by_axis(&mut self, axis: u8)
        requires
            old(self).wf(),
        ensures
            final(self).wf(),
            final(self).prims().len() == old(self).prims().len(),
            final(self).prims().to_multiset() == old(self).prims().to_multiset(),
            axis <= 2 ==> sorted_by_pos(final(self).prims(), axis as int),
            axis <= 2 ==> same_keyed_subsequences(
                final(self).prims(),
                old(self).prims(),
                pos_key(axis as int),
            ),
            axis > 2 ==> *final(self) == *old(self),
    {
        if axis > 2 {
            return ;
        }
        let ghost orig = self.prims();
        let n = self.data.len();
        if n <= 1 {
            return ;
        }
        let mut i: usize = 1;
        while i < n
            invariant
                1 <= i <= n,
                n == self.prims().len(),
                self.wf(),
                self.prims().to_multiset() == orig.to_multiset(),
                same_keyed_subsequences(self.prims(), orig, pos_key(axis as int)),
                sorted_by_pos(self.prims().subrange(0, i as int), axis as int),
                axis <= 2,
            decreases n - i,
        {
            let ghost before = self.prims();
            let x = self.data.remove(i);
            let ghost removed = self.prims();
            proof {
                vstd::seq_lib::to_multiset_remove(before, i as int);
                assert forall|q: int| 0 <= q < i implies self.prims()[q] == before[q] by {}
            }
            let kx = x.get_position().axis(axis as usize);
            let mut p: usize = i;
            while p > 0
                invariant_except_break
                    p <= i,
                    i < n,
                    n == self.prims().len() + 1,
                    self.wf(),
                    self.prims() == removed,
                    axis <= 2,
                    x.wf(),
                    kx == x.spos(axis as int),
                    forall|q: int| p <= q < i ==> (#[trigger] removed[q]).spos(axis as int) > kx,
                ensures
                    p <= i,
                    self.prims() == removed,
                    forall|q: int| p <= q < i ==> (#[trigger] removed[q]).spos(axis as int) > kx,
                    p > 0 ==> removed[p - 1].spos(axis as int) <= kx,
                decreases p,
            {
                let kp = self.data[p - 1].get_position().axis(axis as usize);
                if kp <= kx {
                    break ;
                }
                p = p - 1;
            }
            self.data.insert(p, x);
            i = i + 1;
            proof {
                let cur = self.prims();
                assert(cur == removed.insert(p as int, x));
                removed.insert_ensures(p as int, x);
                vstd::seq_lib::to_multiset_insert(removed, p as int, x);
                assert(before.to_multiset().count(x) > 0) by {
                    vstd::seq_lib::to_multiset_contains(before, x);
                    assert(before.contains(x));
                }
                assert(cur.to_multiset() =~= before.to_multiset());
                // Stability: the element moved only across strictly
                // greater keys, so every key value keeps its subsequence.
                assert(removed =~= before.remove(i as int - 1));
                assert(cur =~= before.remove(i as int - 1).insert(p as int, x));
                assert forall|q: int|
                    p <= q < i - 1 implies pos_key(axis as int)(#[trigger] before[q]) > pos_key(
                    axis as int,
                )(before[i as int - 1]) by {
                    assert(before[q] == removed[q]);
                }
                lemma_stable_reinsert(before, i as int - 1, p as int, pos_key(axis as int));
                assert forall|kv: int| #[trigger] cur.filter(
                    key_pred(pos_key(axis as int), kv),
                ) == orig.filter(key_pred(pos_key(axis as int), kv)) by {
                    assert(cur.filter(key_pred(pos_key(axis as int), kv)) == before.filter(
                        key_pred(pos_key(axis as int), kv),
                    ));
                    assert(before.filter(key_pred(pos_key(axis as int), kv)) == orig.filter(
                        key_pred(pos_key(axis as int), kv),
                    ));
                }
                assert(same_keyed_subsequences(cur, orig, pos_key(axis as int)));
                // The new prefix is sorted: everything below `p` is at most
                // the inserted key, everything from `p` up was above it.
                assert forall|q1: int, q2: int|
                    0 <= q1 < q2 < i implies (#[trigger] cur[q1]).spos(axis as int) <= (
                #[trigger] cur[q2]).spos(axis as int) by {
                    let pre = before.subrange(0, i as int - 1);
                    assert forall|q: int| 0 <= q < i - 1 implies removed[q] == before[q] by {}
                    if q1 < p && q2 < p {
                        assert(cur[q1] == removed[q1] && cur[q2] == removed[q2]);
                    } else if q1 < p && q2 == p {
                        assert(cur[q1] == removed[q1] && cur[q2] == x);
                        if p > 0 && q1 < p - 1 {
                            assert(removed[q1].spos(axis as int) <= removed[p - 1].spos(
                                axis as int,
                            ));
                        }
                    } else if q1 < p && q2 > p {
                        assert(cur[q1] == removed[q1] && cur[q2] == removed[q2 - 1]);
                        if q1 < p - 1 {
                            assert(removed[q1].spos(axis as int) <= removed[p - 1].spos(
                                axis as int,
                            ));
                        }
                        assert(removed[q2 - 1].spos(axis as int) > kx);
                    } else if q1 == p {
                        assert(cur[q1] == x && cur[q2] == removed[q2 - 1]);
                        assert(removed[q2 - 1].spos(axis as int) > kx);
                    } else {
                        assert(cur[q1] == removed[q1 - 1] && cur[q2] == removed[q2 - 1]);
                    }
                }
                assert(sorted_by_pos(cur.subrange(0, i as int), axis as int)) by {
                    assert forall|q1: int, q2: int|
                        0 <= q1 < q2 < cur.subrange(0, i as int).len() implies (
                    #[trigger] cur.subrange(0, i as int)[q1]).spos(axis as int) <= (
                    #[trigger] cur.subrange(0, i as int)[q2]).spos(axis as int) by {
                        assert(cur.subrange(0, i as int)[q1] == cur[q1]);
                        assert(cur.subrange(0, i as int)[q2] == cur[q2]);
                    }
                }
                assert forall|q: int| 0 <= q < cur.len() implies (#[trigger] cur[q]).wf() by {
                    if q < p {
                        assert(cur[q] == removed[q]);
                    } else if q > p {
                        assert(cur[q] == removed[q - 1]);
                    }
                }
            }
        }
        proof {
            assert(self.prims().subrange(0, n as int) =~= self.prims());
        }
    }

    /// Brute-force closest hit: test every primitive, keep the strictly
    /// smaller parameter, the earliest on ties.
    pub fn hit(&self, ray: Ray, t_min: Tval, t_max: Tval) -> (h: HitData)
        requires
            self.wf(),
            ray.wf(),
            t_min.valid(),
            t_min.num >= 0,
            t_max.valid(),
            capped(t_max),
        ensures
            is_best_hit(self.prims(), ray, t_min, t_max, h),
            h.did_hit ==> crate::hit::hit_sane(h),
            h == spec_scan(self.prims(), ray, t_min, t_max),
    {
        let mut best = HitData::new();
        proof {
            assert(self.prims().subrange(0, 0) =~= Seq::<Primitive>::empty());
        }
        let ghost mut wi: int = 0;
        let n = self.data.len();
        let mut k: usize = 0;
        while k < n
            invariant
                k <= n,
                n == self.prims().len(),
                self.wf(),
                ray.wf(),
                t_min.valid(),
                t_min.num >= 0,
                t_max.valid(),
                capped(t_max),
                is_best_hit(self.prims().subrange(0, k as int), ray, t_min, t_max, best),
                best.did_hit ==> is_winner(
                    self.prims().subrange(0, k as int),
                    ray,
                    t_min,
                    t_max,
                    best,
                    wi,
                ),
                best.did_hit ==> crate::hit::hit_sane(best),
                best == spec_scan(self.prims().subrange(0, k as int), ray, t_min, t_max),
            decreases n - k,
        {
            let ghost pre = self.prims().subrange(0, k as int);
            let ghost cur = self.prims().subrange(0, k as int + 1);
            proof {
                assert(cur[k as int] == self.prims()[k as int]);
                assert forall|j: int| 0 <= j < k implies cur[j] == pre[j] by {}
                assert(cur.drop_last() =~= pre);
                assert(cur.last() == self.prims()[k as int]);
            }
            let try_h = self.data[k].hit(ray, t_min, t_max);
            if try_h.did_hit && try_h.t.lt(best.t) {
                proof {
                    if best.did_hit {
                        assert forall|j: int|
                            0 <= j < k as int && #[trigger] cur[j].hit_t(ray, t_min, t_max)
                                is Some implies nd_lt(
                            try_h.t.num as int,
                            try_h.t.den as int,
                            cur[j].hit_t(ray, t_min, t_max).unwrap().0,
                            cur[j].hit_t(ray, t_min, t_max).unwrap().1,
                        ) by {
                            assert(pre[j].hit_t(ray, t_min, t_max) is Some);
                            crate::rat::lemma_nd_lt_le_trans(
                                try_h.t.num as int,
                                try_h.t.den as int,
                                best.t.num as int,
                                best.t.den as int,
                                pre[j].hit_t(ray, t_min, t_max).unwrap().0,
                                pre[j].hit_t(ray, t_min, t_max).unwrap().1,
                            );
                        }
                    } else {
                        assert forall|j: int| 0 <= j < k implies #[trigger] cur[j].hit_t(
                            ray,
                            t_min,
                            t_max,
                        ) is None by {
                            assert(pre[j].hit_t(ray, t_min, t_max) is None);
                        }
                    }
                    wi = k as int;
                    assert(is_winner(cur, ray, t_min, t_max, try_h, k as int));
                }
                best = try_h;
            } else {
                proof {
                    if try_h.did_hit {
                        // The candidate is no closer; the running best
                        // cannot be the sentinel, whose parameter exceeds
                        // every capped hit.
                        crate::rat::lemma_capped_below_sentinel(try_h.t);
                        assert(best.did_hit);
                        assert(is_winner(cur, ray, t_min, t_max, best, wi));
                    } else {
                        if best.did_hit {
                            assert(is_winner(cur, ray, t_min, t_max, best, wi));
                        } else {
                            assert forall|j: int| 0 <= j < k as int + 1 implies #[trigger] cur[j].hit_t(
                                ray,
                                t_min,
                                t_max,
                            ) is None by {
                                if j < k {
                                    assert(pre[j].hit_t(ray, t_min, t_max) is None);
                                }
                            }
                        }
                    }
                }
            }
            k = k + 1;
        }
        proof {
            assert(self.prims().subrange(0, n as int) =~= self.prims());
        }
        best
    }
}

} // verus!
