//! Triangle meshes, and the closed set of scene-level objects.
//!
//! A mesh is built from a vertex buffer and a face-index list: each face
//! becomes a triangle carrying the unit-scaled face direction, and each
//! corner carries the unit-scaled sum of the raw face directions of the
//! faces that share it (longer faces therefore weigh more, as in any
//! area-weighted average).  A mesh is never intersected as a whole: it
//! decomposes into its triangles.

use vstd::prelude::*;
use crate::hit::div_floor;
use crate::materials::Material;
use crate::primitive::HittableList;
use crate::primitive::Primitive;
use crate::plane::Plane;
use crate::rat::is_isqrt;
use crate::rat::isqrt;
use crate::rat::sqrt_floor;
use crate::sphere::Sphere;
use crate::triangle::Triangle;
use crate::vec3::COORD_MAX;
use crate::vec3::Vec3;
use crate::vec3::lemma_mul_bound;
use crate::vec3::smax;
use crate::vec3::t3_cross;
use crate::vec3::t3_sub;

verus! {

/// A direction scaled to unit length in units of `2^20`: each component
/// is `v * 2^20 / |v|`, rounded down, with a floor of one on the length.
pub open spec fn unit_scaled(x: int, y: int, z: int) -> (int, int, int) {
    let l = smax(sqrt_floor(x * x + y * y + z * z), 1);
    ((x * 0x10_0000) / l, (y * 0x10_0000) / l, (z * 0x10_0000) / l)
}

/// Exact unit scaling of an integer direction.
pub fn unit_scale(v: Vec3) -> (r: Vec3)
    requires
        v.bounded(0x2_0000_0000_0000),
    ensures
        (r.x as int, r.y as int, r.z as int) == unit_scaled(v.x as int, v.y as int, v.z as int),
        r.bounded(0x10_0000),
{
    proof {
        lemma_mul_bound(v.x as int, v.x as int, 0x2_0000_0000_0000, 0x2_0000_0000_0000);
        lemma_mul_bound(v.y as int, v.y as int, 0x2_0000_0000_0000, 0x2_0000_0000_0000);
        lemma_mul_bound(v.z as int, v.z as int, 0x2_0000_0000_0000, 0x2_0000_0000_0000);
        assert(v.x as int * (v.x as int) >= 0 && v.y as int * (v.y as int) >= 0 && v.z as int * (
        v.z as int) >= 0) by (nonlinear_arith);
    }
    let s2 = (v.x as i128) * (v.x as i128) + (v.y as i128) * (v.y as i128) + (v.z as i128) * (
    v.z as i128);
    let l0 = isqrt(s2);
    let l = if l0 < 1 {
        1
    } else {
        l0
    };
    proof {
        assert(l as int == smax(sqrt_floor(s2 as int), 1));
        assert(v.x as int * (v.x as int) <= s2);
        assert(-l <= v.x && v.x <= l) by (nonlinear_arith)
            requires
                v.x as int * (v.x as int) <= s2 as int,
                is_isqrt(s2 as int, l0 as int),
                l as int == smax(l0 as int, 1),
        ;
        assert(-l <= v.y && v.y <= l) by (nonlinear_arith)
            requires
                v.y as int * (v.y as int) <= s2 as int,
                is_isqrt(s2 as int, l0 as int),
                l as int == smax(l0 as int, 1),
        ;
        assert(-l <= v.z && v.z <= l) by (nonlinear_arith)
            requires
                v.z as int * (v.z as int) <= s2 as int,
                is_isqrt(s2 as int, l0 as int),
                l as int == smax(l0 as int, 1),
        ;
        assert(l <= 0x4_0000_0000_0000) by (nonlinear_arith)
            requires
                is_isqrt(s2 as int, l0 as int),
                l as int == smax(l0 as int, 1),
                0 <= s2 <= 0xC_0000_0000_0000_0000_0000_0000,
        ;
        lemma_mul_bound(v.x as int, 0x10_0000, l as int, 0x10_0000);
        lemma_mul_bound(v.y as int, 0x10_0000, l as int, 0x10_0000);
        lemma_mul_bound(v.z as int, 0x10_0000, l as int, 0x10_0000);
        crate::hit::lemma_div_range((v.x as int) * 0x10_0000, l as int, -0x10_0000, 0x10_0000);
        crate::hit::lemma_div_range((v.y as int) * 0x10_0000, l as int, -0x10_0000, 0x10_0000);
        crate::hit::lemma_div_range((v.z as int) * 0x10_0000, l as int, -0x10_0000, 0x10_0000);
    }
    let rx = div_floor((v.x as i128) * 0x10_0000, l);
    let ry = div_floor((v.y as i128) * 0x10_0000, l);
    let rz = div_floor((v.z as i128) * 0x10_0000, l);
    Vec3 { x: rx as i64, y: ry as i64, z: rz as i64 }
}

/// The raw (area-weighted) face direction of face `f` over the vertex
/// buffer: the cross product of its two edges.
pub open spec fn face_cross(verts: Seq<Vec3>, f: (usize, usize, usize)) -> (int, int, int) {
    t3_cross(
        t3_sub(verts[f.1 as int - 1], verts[f.0 as int - 1]),
        t3_sub(verts[f.2 as int - 1], verts[f.0 as int - 1]),
    )
}

/// The accumulated raw face directions at vertex `vi` over the first
/// `k` faces: each face adds its cross product once per corner slot that
/// names the vertex (a degenerate face naming a vertex twice weighs it
/// twice).
pub open spec fn vn_sum(
    verts: Seq<Vec3>,
    faces: Seq<(usize, usize, usize)>,
    vi: int,
    k: int,
) -> (int, int, int)
    decreases k,
{
    if k <= 0 {
        (0, 0, 0)
    } else {
        let prev = vn_sum(verts, faces, vi, k - 1);
        let f = faces[k - 1];
        let c = face_cross(verts, f);
        let mult = (if f.0 as int - 1 == vi {
            1int
        } else {
            0int
        }) + (if f.1 as int - 1 == vi {
            1int
        } else {
            0int
        }) + (if f.2 as int - 1 == vi {
            1int
        } else {
            0int
        });
        (prev.0 + mult * c.0, prev.1 + mult * c.1, prev.2 + mult * c.2)
    }
}

/// One-based face indices that address the vertex buffer.
pub open spec fn face_ok(f: (usize, usize, usize), nverts: int) -> bool {
    &&& 1 <= f.0 <= nverts
    &&& 1 <= f.1 <= nverts
    &&& 1 <= f.2 <= nverts
}

pub struct TriangleMesh {
    pub triangles: Vec<Triangle>,
    pub position: Vec3,
    pub material: Material,
    pub smooth: bool,
}

impl TriangleMesh {
    pub open spec fn wf(self) -> bool {
        &&& forall|i: int|
            0 <= i < self.triangles@.len() ==> (#[trigger] self.triangles@[i]).wf()
        &&& self.material.wf()
    }

    /// Build the mesh: one triangle per face, carrying the unit-scaled
    /// face direction; each corner direction is the unit-scaled sum of
    /// the raw directions of the faces sharing that corner.
    pub fn new(vertices: Vec<Vec3>, faces: Vec<(usize, usize, usize)>, smooth: bool) -> (r:
        TriangleMesh)
        requires
            forall|i: int|
                0 <= i < vertices@.len() ==> (#[trigger] vertices@[i]).bounded(COORD_MAX as int),
            vertices@.len() <= 0x10000,
            faces@.len() <= 0x8000,
            forall|i: int|
                0 <= i < faces@.len() ==> face_ok(#[trigger] faces@[i], vertices@.len() as int),
        ensures
            r.material == Material::Flat(crate::materials::Flat {
                albedo: Vec3 { x: 128i64, y: 128i64, z: 128i64 },
            }),
            r.smooth == smooth,
            r.position == (Vec3 { x: 0i64, y: 0i64, z: 0i64 }),
            r.triangles@.len() == faces@.len(),
            forall|j: int|
                0 <= j < faces@.len() ==> {
                    let t = #[trigger] r.triangles@[j];
                    let f = faces@[j];
                    &&& t.v0 == vertices@[f.0 as int - 1]
                    &&& t.v1 == vertices@[f.1 as int - 1]
                    &&& t.v2 == vertices@[f.2 as int - 1]
                    &&& t.smooth == smooth
                    &&& t.material == r.material
                    &&& (t.surface_normal.x as int, t.surface_normal.y as int,
                    t.surface_normal.z as int) == unit_scaled(
                        face_cross(vertices@, f).0,
                        face_cross(vertices@, f).1,
                        face_cross(vertices@, f).2,
                    )
                    &&& (t.n0.x as int, t.n0.y as int, t.n0.z as int) == unit_scaled(
                        vn_sum(vertices@, faces@, f.0 as int - 1, faces@.len() as int).0,
                        vn_sum(vertices@, faces@, f.0 as int - 1, faces@.len() as int).1,
                        vn_sum(vertices@, faces@, f.0 as int - 1, faces@.len() as int).2,
                    )
                    &&& (t.n1.x as int, t.n1.y as int, t.n1.z as int) == unit_scaled(
                        vn_sum(vertices@, faces@, f.1 as int - 1, faces@.len() as int).0,
                        vn_sum(vertices@, faces@, f.1 as int - 1, faces@.len() as int).1,
                        vn_sum(vertices@, faces@, f.1 as int - 1, faces@.len() as int).2,
                    )
                    &&& (t.n2.x as int, t.n2.y as int, t.n2.z as int) == unit_scaled(
                        vn_sum(vertices@, faces@, f.2 as int - 1, faces@.len() as int).0,
                        vn_sum(vertices@, faces@, f.2 as int - 1, faces@.len() as int).1,
                        vn_sum(vertices@, faces@, f.2 as int - 1, faces@.len() as int).2,
                    )
                },
            r.wf(),
    {
        let material = Material::default_grey();
        let nv = vertices.len();
        let nf = faces.len();
        // First pass: accumulate the raw face direction onto each corner
        // of each face.
        let mut vsums: Vec<Vec3> = Vec::new();
        let mut i: usize = 0;
        while i < nv
            invariant
                i <= nv,
                vsums@.len() == i,
                forall|v: int| 0 <= v < i ==> #[trigger] vsums@[v] == (Vec3 { x: 0i64, y: 0i64, z: 0i64 }),
            decreases nv - i,
        {
            vsums.push(Vec3 { x: 0, y: 0, z: 0 });
            i = i + 1;
        }
        let mut k: usize = 0;
        while k < nf
            invariant
                k <= nf,
                nf == faces@.len(),
                nv == vertices@.len(),
                vsums@.len() == nv,
                faces@.len() <= 0x8000,
                forall|i: int|
                    0 <= i < vertices@.len() ==> (#[trigger] vertices@[i]).bounded(
                        COORD_MAX as int,
                    ),
                forall|i: int|
                    0 <= i < faces@.len() ==> face_ok(#[trigger] faces@[i], vertices@.len() as int),
                forall|v: int|
                    0 <= v < nv ==> (#[trigger] vsums@[v]).bounded(0x1800_0000 * (k as int)),
                forall|v: int|
                    0 <= v < nv ==> ((#[trigger] vsums@[v]).x as int, vsums@[v].y as int,
                    vsums@[v].z as int) == vn_sum(vertices@, faces@, v, k as int),
            decreases nf - k,
        {
            let ghost pre_sums = vsums@;
            let f = faces[k];
            let v0 = vertices[f.0 - 1];
            let v1 = vertices[f.1 - 1];
            let v2 = vertices[f.2 - 1];
            let c = v1.sub_v(v0).cross(v2.sub_v(v0));
            proof {
                lemma_mul_bound(v1.x - v0.x, v2.y - v0.y, 0x2000, 0x2000);
                lemma_mul_bound(v1.y - v0.y, v2.x - v0.x, 0x2000, 0x2000);
                lemma_mul_bound(v1.y - v0.y, v2.z - v0.z, 0x2000, 0x2000);
                lemma_mul_bound(v1.z - v0.z, v2.y - v0.y, 0x2000, 0x2000);
                lemma_mul_bound(v1.z - v0.z, v2.x - v0.x, 0x2000, 0x2000);
                lemma_mul_bound(v1.x - v0.x, v2.z - v0.z, 0x2000, 0x2000);
            }
            proof {
                assert(c.bounded(0x800_0000));
                assert(vsums@[f.0 as int - 1].bounded(0x1800_0000 * (k as int)));
                assert(0x1800_0000 * (k as int) <= 0xC000_0000_0000) by (nonlinear_arith)
                    requires
                        0 <= k <= 0x8000,
                ;
            }
            let s0 = vsums[f.0 - 1].add_v(c);
            vsums.set(f.0 - 1, s0);
            proof {
                assert forall|v: int| 0 <= v < nv implies (#[trigger] vsums@[v]).bounded(
                    0x1800_0000 * (k as int) + 0x800_0000,
                ) by {}
            }
            let s1 = vsums[f.1 - 1].add_v(c);
            vsums.set(f.1 - 1, s1);
            proof {
                assert forall|v: int| 0 <= v < nv implies (#[trigger] vsums@[v]).bounded(
                    0x1800_0000 * (k as int) + 0x1000_0000,
                ) by {}
            }
            let s2 = vsums[f.2 - 1].add_v(c);
            vsums.set(f.2 - 1, s2);
            k = k + 1;
            proof {
                assert forall|v: int| 0 <= v < nv implies (#[trigger] vsums@[v]).bounded(
                    0x1800_0000 * (k as int),
                ) by {}
                assert forall|v: int| 0 <= v < nv implies ((#[trigger] vsums@[v]).x as int,
                vsums@[v].y as int, vsums@[v].z as int) == vn_sum(
                    vertices@,
                    faces@,
                    v,
                    k as int,
                ) by {
                    let i0 = f.0 as int - 1;
                    let i1 = f.1 as int - 1;
                    let i2 = f.2 as int - 1;
                    let cc = face_cross(vertices@, faces@[k as int - 1]);
                    assert(faces@[k as int - 1] == f);
                    assert(cc.0 == c.x && cc.1 == c.y && cc.2 == c.z);
                    let m = (if i0 == v {
                        1int
                    } else {
                        0int
                    }) + (if i1 == v {
                        1int
                    } else {
                        0int
                    }) + (if i2 == v {
                        1int
                    } else {
                        0int
                    });
                    assert(vsums@[v].x as int == pre_sums[v].x + m * cc.0 && vsums@[v].y as int
                        == pre_sums[v].y + m * cc.1 && vsums@[v].z as int == pre_sums[v].z + m
                        * cc.2) by {
                        if m == 0 {
                            assert(m * cc.0 == 0 && m * cc.1 == 0 && m * cc.2 == 0);
                        } else if m == 1 {
                            assert(m * cc.0 == cc.0 && m * cc.1 == cc.1 && m * cc.2 == cc.2);
                        } else if m == 2 {
                            assert(m * cc.0 == 2 * cc.0 && m * cc.1 == 2 * cc.1 && m * cc.2 == 2
                                * cc.2);
                        } else {
                            assert(m == 3);
                            assert(m * cc.0 == 3 * cc.0 && m * cc.1 == 3 * cc.1 && m * cc.2 == 3
                                * cc.2);
                        }
                    }
                }
            }
        }
        // Second pass: one triangle per face.
        let mut triangles: Vec<Triangle> = Vec::new();
        let mut j: usize = 0;
        while j < nf
            invariant
                j <= nf,
                nf == faces@.len(),
                nv == vertices@.len(),
                vsums@.len() == nv,
                faces@.len() <= 0x8000,
                forall|i: int|
                    0 <= i < vertices@.len() ==> (#[trigger] vertices@[i]).bounded(
                        COORD_MAX as int,
                    ),
                forall|i: int|
                    0 <= i < faces@.len() ==> face_ok(#[trigger] faces@[i], vertices@.len() as int),
                forall|v: int|
                    0 <= v < nv ==> (#[trigger] vsums@[v]).bounded(0x1800_0000 * (nf as int)),
                forall|v: int|
                    0 <= v < nv ==> ((#[trigger] vsums@[v]).x as int, vsums@[v].y as int,
                    vsums@[v].z as int) == vn_sum(vertices@, faces@, v, nf as int),
                triangles@.len() == j,
                material == Material::Flat(crate::materials::Flat {
                    albedo: Vec3 { x: 128i64, y: 128i64, z: 128i64 },
                }),
                forall|q: int|
                    0 <= q < j ==> {
                        let t = #[trigger] triangles@[q];
                        let f = faces@[q];
                        &&& t.v0 == vertices@[f.0 as int - 1]
                        &&& t.v1 == vertices@[f.1 as int - 1]
                        &&& t.v2 == vertices@[f.2 as int - 1]
                        &&& t.smooth == smooth
                        &&& t.material == material
                        &&& (t.surface_normal.x as int, t.surface_normal.y as int,
                        t.surface_normal.z as int) == unit_scaled(
                            face_cross(vertices@, f).0,
                            face_cross(vertices@, f).1,
                            face_cross(vertices@, f).2,
                        )
                        &&& (t.n0.x as int, t.n0.y as int, t.n0.z as int) == unit_scaled(
                            vn_sum(vertices@, faces@, f.0 as int - 1, nf as int).0,
                            vn_sum(vertices@, faces@, f.0 as int - 1, nf as int).1,
                            vn_sum(vertices@, faces@, f.0 as int - 1, nf as int).2,
                        )
                        &&& (t.n1.x as int, t.n1.y as int, t.n1.z as int) == unit_scaled(
                            vn_sum(vertices@, faces@, f.1 as int - 1, nf as int).0,
                            vn_sum(vertices@, faces@, f.1 as int - 1, nf as int).1,
                            vn_sum(vertices@, faces@, f.1 as int - 1, nf as int).2,
                        )
                        &&& (t.n2.x as int, t.n2.y as int, t.n2.z as int) == unit_scaled(
                            vn_sum(vertices@, faces@, f.2 as int - 1, nf as int).0,
                            vn_sum(vertices@, faces@, f.2 as int - 1, nf as int).1,
                            vn_sum(vertices@, faces@, f.2 as int - 1, nf as int).2,
                        )
                        &&& t.wf()
                    },
            decreases nf - j,
        {
            let f = faces[j];
            let v0 = vertices[f.0 - 1];
            let v1 = vertices[f.1 - 1];
            let v2 = vertices[f.2 - 1];
            let c = v1.sub_v(v0).cross(v2.sub_v(v0));
            proof {
                lemma_mul_bound(v1.x - v0.x, v2.y - v0.y, 0x2000, 0x2000);
                lemma_mul_bound(v1.y - v0.y, v2.x - v0.x, 0x2000, 0x2000);
                lemma_mul_bound(v1.y - v0.y, v2.z - v0.z, 0x2000, 0x2000);
                lemma_mul_bound(v1.z - v0.z, v2.y - v0.y, 0x2000, 0x2000);
                lemma_mul_bound(v1.z - v0.z, v2.x - v0.x, 0x2000, 0x2000);
                lemma_mul_bound(v1.x - v0.x, v2.z - v0.z, 0x2000, 0x2000);
            }
            let sn = unit_scale(c);
            let n0 = unit_scale(vsums[f.0 - 1]);
            let n1 = unit_scale(vsums[f.1 - 1]);
            let n2 = unit_scale(vsums[f.2 - 1]);
            let tri = Triangle {
                v0,
                v1,
                v2,
                surface_normal: sn,
                n0,
                n1,
                n2,
                smooth,
                material,
            };
            triangles.push(tri);
            j = j + 1;
        }
        TriangleMesh { triangles, position: Vec3 { x: 0, y: 0, z: 0 }, material, smooth }
    }

    pub fn get_position(&self) -> (r: Vec3)
        ensures
            r == self.position,
    {
        self.position
    }

    /// Repaint the whole mesh.
    pub fn set_material(&mut self, material: Material)
        ensures
            final(self).material == material,
            final(self).triangles@.len() == old(self).triangles@.len(),
            forall|i: int|
                0 <= i < final(self).triangles@.len() ==> #[trigger] final(self).triangles@[i]
                    == (Triangle { material, ..old(self).triangles@[i] }),
            final(self).position == old(self).position,
            final(self).smooth == old(self).smooth,
    {
        self.material = material;
        let n = self.triangles.len();
        let mut i: usize = 0;
        while i < n
            invariant
                i <= n,
                n == self.triangles@.len(),
                self.triangles@.len() == old(self).triangles@.len(),
                self.material == material,
                self.position == old(self).position,
                self.smooth == old(self).smooth,
                forall|q: int|
                    0 <= q < i ==> #[trigger] self.triangles@[q] == (Triangle {
                        material,
                        ..old(self).triangles@[q]
                    }),
                forall|q: int|
                    i <= q < n ==> #[trigger] self.triangles@[q] == old(self).triangles@[q],
            decreases n - i,
        {
            let mut t = self.triangles[i];
            t.set_material(material);
            self.triangles.set(i, t);
            i = i + 1;
        }
    }

    /// The triangles, as primitives.
    pub fn decompose(&self) -> (r: HittableList)
        ensures
            r.prims().len() == self.triangles@.len(),
            forall|i: int|
                0 <= i < r.prims().len() ==> #[trigger] r.prims()[i] == Primitive::Triangle(
                    self.triangles@[i],
                ),
            self.wf() ==> r.wf(),
    {
        let mut out = HittableList::new();
        let n = self.triangles.len();
        let mut i: usize = 0;
        while i < n
            invariant
                i <= n,
                n == self.triangles@.len(),
                out.prims().len() == i,
                forall|q: int|
                    0 <= q < i ==> #[trigger] out.prims()[q] == Primitive::Triangle(
                        self.triangles@[q],
                    ),
            decreases n - i,
        {
            out.push(Primitive::Triangle(self.triangles[i]));
            i = i + 1;
        }
        proof {
            if self.wf() {
                assert forall|q: int| 0 <= q < out.prims().len() implies (
                #[trigger] out.prims()[q]).wf() by {
                    assert(out.prims()[q] == Primitive::Triangle(self.triangles@[q]));
                }
            }
        }
        out
    }
}

/// A scene-level object: an indivisible shape, or a mesh that dissolves
/// into triangles before any intersection work.
pub enum SceneObject {
    Sphere(Sphere),
    Plane(Plane),
    Mesh(TriangleMesh),
}

impl SceneObject {
    pub open spec fn wf(self) -> bool {
        match self {
            SceneObject::Sphere(s) => s.wf(),
            SceneObject::Plane(p) => p.wf(),
            SceneObject::Mesh(m) => m.wf(),
        }
    }

    /// The primitives this object dissolves into.
    pub open spec fn sdecompose(self) -> Seq<Primitive> {
        match self {
            SceneObject::Sphere(s) => seq![Primitive::Sphere(s)],
            SceneObject::Plane(p) => seq![Primitive::Plane(p)],
            SceneObject::Mesh(m) => Seq::new(
                m.triangles@.len(),
                |i: int| Primitive::Triangle(m.triangles@[i]),
            ),
        }
    }

    /// Dissolve into indivisible primitives: a mesh yields its triangles,
    /// anything else yields itself.
    pub fn decompose(&self) -> (r: HittableList)
        ensures
            r.prims() == self.sdecompose(),
            self.wf() ==> r.wf(),
    {
        match self {
            SceneObject::Sphere(s) => {
                let mut out = HittableList::new();
                out.push(Primitive::Sphere(*s));
                proof {
                    assert(out.prims() =~= self.sdecompose());
                }
                out
            },
            SceneObject::Plane(p) => {
                let mut out = HittableList::new();
                out.push(Primitive::Plane(*p));
                proof {
                    assert(out.prims() =~= self.sdecompose());
                }
                out
            },
            SceneObject::Mesh(m) => {
                let out = m.decompose();
                proof {
                    assert(out.prims() =~= self.sdecompose());
                }
                out
            },
        }
    }
}

} // verus!
