//! The bounding-volume hierarchy.
//!
//! Construction sorts the primitives by centroid along a cycling axis and
//! splits them as evenly as possible into two children, stopping at the
//! leaf threshold; every node's volume covers everything below it (the
//! coverage invariant, `wf`).  Traversal prunes with the exact ray-box
//! test and keeps the closest hit.  For plane-free geometry the traversal
//! provably reports the same parameter as the brute-force scan of the
//! same primitives.

use vstd::prelude::*;
use vstd::seq_lib::lemma_multiset_commutative;
use crate::bounding_volume::BoundingVolume;
use crate::hit::HitData;
use crate::primitive::HittableList;
use crate::primitive::Primitive;
use crate::primitive::hit_matches;
use crate::primitive::is_min_hit;
use crate::primitive::lemma_best_is_min;
use crate::primitive::lemma_hit_t_some_props;
use crate::primitive::no_planes;
use crate::rat::Tval;
use crate::rat::capped;
use crate::rat::nd_le;
use crate::rat::sle;
use crate::ray::Ray;
use crate::vec3::Vec3;

verus! {

pub enum BvhNode {
    /// A leaf: a short list of primitives under one box.
    Leaf { volume: BoundingVolume, objects: HittableList },
    /// An internal node: exactly two children under a covering box.
    Node { volume: BoundingVolume, left: Box<BvhNode>, right: Box<BvhNode> },
}

impl BvhNode {
    pub open spec fn spec_volume(self) -> BoundingVolume {
        match self {
            BvhNode::Leaf { volume, .. } => volume,
            BvhNode::Node { volume, .. } => volume,
        }
    }

    /// Every primitive stored below this node, leaves left to right.
    pub open spec fn subtree_prims(self) -> Seq<Primitive>
        decreases self,
    {
        match self {
            BvhNode::Leaf { objects, .. } => objects.prims(),
            BvhNode::Node { left, right, .. } => left.subtree_prims() + right.subtree_prims(),
        }
    }

    /// Well-formedness, including the coverage invariant: a node's volume
    /// contains its children's volumes (or, at a leaf, every object's
    /// box).
    pub open spec fn wf(self) -> bool
        decreases self,
    {
        match self {
            BvhNode::Leaf { volume, objects } => {
                &&& volume.wf()
                &&& objects.wf()
                &&& forall|i: int|
                    0 <= i < objects.prims().len() ==> volume.contains_box(
                        (#[trigger] objects.prims()[i]).sbox(),
                    )
            },
            BvhNode::Node { volume, left, right } => {
                &&& volume.wf()
                &&& left.wf()
                &&& right.wf()
                &&& volume.contains_box(left.spec_volume())
                &&& volume.contains_box(right.spec_volume())
            },
        }
    }

    /// Structural shape of a built tree: a leaf holds at most
    /// `threshold` primitives; an internal node exists only where more
    /// than `threshold` primitives remain, and splits them into two
    /// halves whose counts differ by at most one.
    pub open spec fn well_shaped(self, threshold: u64) -> bool
        decreases self,
    {
        match self {
            BvhNode::Leaf { objects, .. } => objects.prims().len() <= threshold,
            BvhNode::Node { left, right, .. } => {
                &&& left.well_shaped(threshold)
                &&& right.well_shaped(threshold)
                &&& left.subtree_prims().len() + right.subtree_prims().len() > threshold
                &&& -1 <= left.subtree_prims().len() - right.subtree_prims().len() <= 1
            },
        }
    }

    /// An empty tree: a leaf with no objects under a degenerate box.
    pub fn new() -> (r: BvhNode)
        ensures
            r.wf(),
            r.subtree_prims() == Seq::<Primitive>::empty(),
    {
        let r = BvhNode::Leaf {
            volume: BoundingVolume {
                min: Vec3 { x: 0, y: 0, z: 0 },
                max: Vec3 { x: 0, y: 0, z: 0 },
            },
            objects: HittableList::new(),
        };
        r
    }

    pub fn get_volume(&self) -> (r: BoundingVolume)
        ensures
            r == self.spec_volume(),
    {
        match self {
            BvhNode::Leaf { volume, .. } => *volume,
            BvhNode::Node { volume, .. } => *volume,
        }
    }

    /// Build the tree over an already decomposed list of primitives.
    pub fn from(object_list: HittableList, axis: u8, threshold: u64) -> (r: BvhNode)
        requires
            object_list.wf(),
            threshold >= 1,
        ensures
            r.wf(),
            r.well_shaped(threshold),
            r.subtree_prims().to_multiset() == object_list.prims().to_multiset(),
    {
        BvhNode::build_node_recursive(object_list, axis, threshold)
    }

    /// Recursive construction: sort by centroid along `axis mod 3`, split
    /// as evenly as possible (the extra element goes left), recurse with
    /// the next axis.
    fn build_node_recursive(object_list: HittableList, axis: u8, threshold: u64) -> (r: BvhNode)
        requires
            object_list.wf(),
            threshold >= 1,
        ensures
            r.wf(),
            r.well_shaped(threshold),
            r.subtree_prims().to_multiset() == object_list.prims().to_multiset(),
        decreases object_list.prims().len(),
    {
        let n = object_list.len();
        if (n as u64) <= threshold {
            let volume = object_list.get_bounding_vol();
            BvhNode::Leaf { volume, objects: object_list }
        } else {
            let mut list = object_list;
            list.sort_by_axis(axis % 3);
            let half = n / 2;
            proof {
                assert(1 <= half < n);
                assert(list.prims().subrange(0, (n - half) as int) + list.prims().subrange(
                    (n - half) as int,
                    n as int,
                ) =~= list.prims());
            }
            let left_list = list.get_slice_copy(0, n - half);
            let right_list = list.get_slice_copy(n - half, n);
            proof {
                lemma_multiset_commutative(left_list.prims(), right_list.prims());
            }
            let left = BvhNode::build_node_recursive(left_list, (axis % 3) + 1, threshold);
            let right = BvhNode::build_node_recursive(right_list, (axis % 3) + 1, threshold);
            let volume = left.get_volume().union(right.get_volume());
            let r = BvhNode::Node { volume, left: Box::new(left), right: Box::new(right) };
            proof {
                lemma_multiset_commutative(left.subtree_prims(), right.subtree_prims());
                assert(r.subtree_prims() == left.subtree_prims() + right.subtree_prims());
                assert(r.subtree_prims().to_multiset() =~= list.prims().to_multiset());
                vstd::seq_lib::to_multiset_len(left.subtree_prims());
                vstd::seq_lib::to_multiset_len(left_list.prims());
                vstd::seq_lib::to_multiset_len(right.subtree_prims());
                vstd::seq_lib::to_multiset_len(right_list.prims());
                assert(left.subtree_prims().len() == n - half);
                assert(right.subtree_prims().len() == half as int);
            }
            r
        }
    }

    /// The traversal, as a value: prune on the box test, scan at a
    /// leaf, and merge the children's results closest-first in the
    /// heuristic order (the dominant direction axis picks it; either
    /// order keeps the closest parameter).
    pub open spec fn spec_bvh_hit(node: BvhNode, ray: Ray, t_min: Tval, t_max: Tval) -> HitData
        decreases node,
    {
        if !crate::bounding_volume::spec_box_hit(node.spec_volume(), ray, t_min, t_max) {
            HitData::spec_miss()
        } else {
            match node {
                BvhNode::Leaf { objects, .. } => crate::primitive::spec_scan(
                    objects.prims(),
                    ray,
                    t_min,
                    t_max,
                ),
                BvhNode::Node { left, right, .. } => {
                    let hl = BvhNode::spec_bvh_hit(*left, ray, t_min, t_max);
                    let hr = BvhNode::spec_bvh_hit(*right, ray, t_min, t_max);
                    let dx = vstd::math::abs(ray.direction.x as int) as int;
                    let dy = vstd::math::abs(ray.direction.y as int) as int;
                    let dz = vstd::math::abs(ray.direction.z as int) as int;
                    let axis: int = if dy > dx && dy >= dz {
                        1
                    } else if dz > dx && dz > dy {
                        2
                    } else {
                        0
                    };
                    let lpos = left.spec_volume().spec_position2(axis);
                    let rpos = right.spec_volume().spec_position2(axis);
                    let reverse = lpos <= rpos;
                    let h1 = if reverse {
                        hr
                    } else {
                        hl
                    };
                    let h2 = if reverse {
                        hl
                    } else {
                        hr
                    };
                    let m0 = HitData::spec_miss();
                    let m1 = if h1.did_hit && crate::rat::slt(h1.t, m0.t) {
                        h1
                    } else {
                        m0
                    };
                    if h2.did_hit && crate::rat::slt(h2.t, m1.t) {
                        h2
                    } else {
                        m1
                    }
                },
            }
        }
    }

    /// Traverse the tree for the closest hit within `[t_min, t_max]`.
    ///
    /// Whatever comes back is a genuine hit of some primitive below this
    /// node; on plane-free geometry the result's parameter is exactly the
    /// minimum over all of them — the brute-force answer.
    pub fn hit(&self, ray: Ray, t_min: Tval, t_max: Tval) -> (h: HitData)
        requires
            self.wf(),
            ray.wf(),
            t_min.valid(),
            t_min.num >= 0,
            t_max.valid(),
            capped(t_max),
            sle(t_min, t_max),
        ensures
            h.t.valid(),
            !h.did_hit ==> h == HitData::spec_miss(),
            h.did_hit ==> h.t.num >= 0 && capped(h.t),
            h.did_hit ==> exists|i: int|
                0 <= i < self.subtree_prims().len() && hit_matches(
                    #[trigger] self.subtree_prims()[i],
                    ray,
                    t_min,
                    t_max,
                    h,
                ),
            h.did_hit ==> crate::hit::hit_sane(h),
            h == BvhNode::spec_bvh_hit(*self, ray, t_min, t_max),
            no_planes(self.subtree_prims()) ==> is_min_hit(
                self.subtree_prims(),
                ray,
                t_min,
                t_max,
                h,
            ),
        decreases *self,
    {
        let vol = self.get_volume();
        if !vol.hit(ray, t_min, t_max) {
            proof {
                if no_planes(self.subtree_prims()) {
                    assert forall|j: int|
                        0 <= j < self.subtree_prims().len() implies #[trigger] self.subtree_prims()[j].hit_t(
                        ray,
                        t_min,
                        t_max,
                    ) is None by {
                        let p = self.subtree_prims()[j];
                        if p.hit_t(ray, t_min, t_max) is Some {
                            BvhNode::lemma_coverage(*self, j);
                            lemma_hit_t_some_props(p, ray, t_min, t_max);
                            let (pn, pd) = p.hit_t(ray, t_min, t_max).unwrap();
                            let tg = Tval { num: pn as i128, den: pd as i128 };
                            assert(tg.num == pn && tg.den == pd);
                            p.sbox().lemma_contains_forms(ray, tg);
                            crate::bounding_volume::lemma_contains_box_at(
                                self.spec_volume(),
                                p.sbox(),
                                ray,
                                tg,
                            );
                            assert(sle(t_min, tg) && sle(tg, t_max));
                            assert(false);
                        }
                    }
                }
            }
            return HitData::new();
        }
        match self {
            BvhNode::Leaf { objects, .. } => {
                let h = objects.hit(ray, t_min, t_max);
                proof {
                    lemma_best_is_min(objects.prims(), ray, t_min, t_max, h);
                    if h.did_hit {
                        let i = choose|i: int|
                            crate::primitive::is_winner(objects.prims(), ray, t_min, t_max, h, i);
                        assert(hit_matches(self.subtree_prims()[i], ray, t_min, t_max, h));
                    }
                }
                h
            },
            BvhNode::Node { left, right, .. } => {
                let hl = left.hit(ray, t_min, t_max);
                let hr = right.hit(ray, t_min, t_max);
                // Front-to-back heuristic: pick the merge order from the
                // children's centroids along the ray's dominant axis.
                // Either order keeps the closest parameter.
                let dx = abs64(ray.direction.x);
                let dy = abs64(ray.direction.y);
                let dz = abs64(ray.direction.z);
                let axis: usize = if dy > dx && dy >= dz {
                    1
                } else if dz > dx && dz > dy {
                    2
                } else {
                    0
                };
                proof {
                    BvhNode::lemma_volume_wf(**left);
                    BvhNode::lemma_volume_wf(**right);
                }
                let lpos = left.get_volume().get_position().axis(axis);
                let rpos = right.get_volume().get_position().axis(axis);
                let reverse = lpos <= rpos;
                let (h1, h2) = if reverse {
                    (hr, hl)
                } else {
                    (hl, hr)
                };
                let mut closest = HitData::new();
                if h1.did_hit {
                    proof {
                        crate::rat::lemma_capped_below_sentinel(h1.t);
                    }
                    if h1.t.lt(closest.t) {
                        closest = h1;
                    }
                }
                if h2.did_hit {
                    proof {
                        crate::rat::lemma_capped_below_sentinel(h2.t);
                    }
                    if h2.t.lt(closest.t) {
                        closest = h2;
                    }
                }
                proof {
                    let lp = left.subtree_prims();
                    let rp = right.subtree_prims();
                    let prims = self.subtree_prims();
                    assert(prims == lp + rp);
                    assert(closest == hl || closest == hr || !closest.did_hit);
                    if closest.did_hit {
                        if closest == hl {
                            let i = choose|i: int|
                                0 <= i < lp.len() && hit_matches(
                                    #[trigger] lp[i],
                                    ray,
                                    t_min,
                                    t_max,
                                    hl,
                                );
                            assert(prims[i] == lp[i]);
                            assert(hit_matches(prims[i], ray, t_min, t_max, closest));
                        } else {
                            let i = choose|i: int|
                                0 <= i < rp.len() && hit_matches(
                                    #[trigger] rp[i],
                                    ray,
                                    t_min,
                                    t_max,
                                    hr,
                                );
                            assert(prims[lp.len() + i] == rp[i]);
                            assert(hit_matches(prims[lp.len() + i], ray, t_min, t_max, closest));
                        }
                    }
                    if no_planes(prims) {
                        assert forall|i: int| 0 <= i < lp.len() implies !((#[trigger] lp[i])
                            is Plane) by {
                            assert(prims[i] == lp[i]);
                        }
                        assert forall|i: int| 0 <= i < rp.len() implies !((#[trigger] rp[i])
                            is Plane) by {
                            assert(prims[lp.len() + i] == rp[i]);
                        }
                        assert(no_planes(lp) && no_planes(rp));
                        // The merged record reports at most either child's
                        // parameter, hence at most any primitive's.
                        if closest.did_hit {
                            assert forall|j: int|
                                0 <= j < prims.len() && #[trigger] prims[j].hit_t(
                                    ray,
                                    t_min,
                                    t_max,
                                ) is Some implies nd_le(
                                closest.t.num as int,
                                closest.t.den as int,
                                prims[j].hit_t(ray, t_min, t_max).unwrap().0,
                                prims[j].hit_t(ray, t_min, t_max).unwrap().1,
                            ) by {
                                let tj0 = prims[j].hit_t(ray, t_min, t_max).unwrap().0;
                                let tj1 = prims[j].hit_t(ray, t_min, t_max).unwrap().1;
                                BvhNode::lemma_coverage(*self, j);
                                lemma_hit_t_some_props(prims[j], ray, t_min, t_max);
                                if j < lp.len() {
                                    assert(prims[j] == lp[j]);
                                    assert(hl.did_hit);
                                    assert(nd_le(hl.t.num as int, hl.t.den as int, tj0, tj1));
                                    if closest != hl {
                                        crate::rat::lemma_nd_le_trans(
                                            closest.t.num as int,
                                            closest.t.den as int,
                                            hl.t.num as int,
                                            hl.t.den as int,
                                            tj0,
                                            tj1,
                                        );
                                    }
                                } else {
                                    assert(prims[j] == rp[j - lp.len()]);
                                    assert(hr.did_hit);
                                    assert(nd_le(hr.t.num as int, hr.t.den as int, tj0, tj1));
                                    if closest != hr {
                                        crate::rat::lemma_nd_le_trans(
                                            closest.t.num as int,
                                            closest.t.den as int,
                                            hr.t.num as int,
                                            hr.t.den as int,
                                            tj0,
                                            tj1,
                                        );
                                    }
                                }
                            }
                        } else {
                            assert(!hl.did_hit && !hr.did_hit);
                            assert forall|j: int|
                                0 <= j < prims.len() implies #[trigger] prims[j].hit_t(
                                ray,
                                t_min,
                                t_max,
                            ) is None by {
                                if j < lp.len() {
                                    assert(prims[j] == lp[j]);
                                } else {
                                    assert(prims[j] == rp[j - lp.len()]);
                                }
                            }
                        }
                    }
                }
                closest
            },
        }
    }

    /// A well-formed node has a well-formed volume.
    pub proof fn lemma_volume_wf(node: BvhNode)
        requires
            node.wf(),
        ensures
            node.spec_volume().wf(),
    {
        match node {
            BvhNode::Leaf { .. } => {},
            BvhNode::Node { .. } => {},
        }
    }

    /// Coverage, transitively: the volume of a well-formed node contains
    /// the box of every primitive below it, and that primitive is well
    /// formed.
    pub proof fn lemma_coverage(node: BvhNode, i: int)
        requires
            node.wf(),
            0 <= i < node.subtree_prims().len(),
        ensures
            node.spec_volume().contains_box(node.subtree_prims()[i].sbox()),
            node.subtree_prims()[i].wf(),
        decreases node,
    {
        match node {
            BvhNode::Leaf { .. } => {},
            BvhNode::Node { volume, left, right } => {
                let lp = left.subtree_prims();
                if i < lp.len() {
                    assert(node.subtree_prims()[i] == lp[i]);
                    BvhNode::lemma_coverage(*left, i);
                } else {
                    assert(node.subtree_prims()[i] == right.subtree_prims()[i - lp.len()]);
                    BvhNode::lemma_coverage(*right, i - lp.len());
                }
            },
        }
    }
}

/// Magnitude of a direction component.
fn abs64(v: i64) -> (r: i64)
    requires
        -0x40_0000 <= v <= 0x40_0000,
    ensures
        r == vstd::math::abs(v as int),
{
    if v < 0 {
        -v
    } else {
        v
    }
}

} // verus!
