//! The scene: geometry, lights, configuration, and the recursive color
//! resolution that materials re-enter for reflection and refraction.

use vstd::prelude::*;
use crate::bvh::BvhNode;
use crate::camera::Camera;
use crate::hit::HitData;
use crate::hit::div_floor;
use crate::lights::AmbientLight;
use crate::lights::Light;
use crate::materials::FACTOR_ONE;
use crate::materials::Flat;
use crate::materials::Hall;
use crate::materials::Material;
use crate::materials::Phong;
use crate::primitive::HittableList;
use crate::primitive::Primitive;
use crate::primitive::no_planes;
use crate::rat::Tval;
use crate::rat::capped;
use crate::rat::sle;
use crate::ray::ORIGIN_MAX;
use crate::ray::Ray;
use crate::shading::BOUNCE_CLAMP;
use crate::shading::COLOR_MAX;
use crate::shading::POINT_MAX;
use crate::shading::ambient_sum;
use crate::shading::apply_shadow;
use crate::shading::clamp_bounce;
use crate::shading::light_color_at;
use crate::shading::lights_sum;
use crate::shading::pow_factor;
use crate::shading::reflect_dir;
use crate::shading::unit_cos;
use crate::triangle_mesh::SceneObject;
use crate::vec3::Vec3;
use crate::vec3::lemma_mul_bound;

verus! {

/// The base color darkened by `k` occluded lights: `k` repeated
/// subtractions of three tenths of the base, each channel rounded down.
pub open spec fn spec_shadow_fold(base: Vec3, k: int) -> Vec3
    decreases k,
{
    if k <= 0 {
        base
    } else {
        let prev = spec_shadow_fold(base, k - 1);
        Vec3 {
            x: crate::shading::shadow_step(prev.x as int, base.x as int) as i64,
            y: crate::shading::shadow_step(prev.y as int, base.y as int) as i64,
            z: crate::shading::shadow_step(prev.z as int, base.z as int) as i64,
        }
    }
}

/// The primitives of a list of scene objects, in declaration order.
pub open spec fn sdecompose_all(objs: Seq<SceneObject>) -> Seq<Primitive>
    decreases objs.len(),
{
    if objs.len() == 0 {
        Seq::empty()
    } else {
        sdecompose_all(objs.drop_last()) + objs.last().sdecompose()
    }
}

/// One light's diffuse and specular contributions at a hit, specular
/// against the mirrored light direction (the Phong model): the light's
/// attenuated color weighted by the clamped unit cosines, per channel in
/// thousandths.
pub open spec fn phong_light_entry(l: Light, hit: HitData, shine: u32) -> (
    (int, int, int),
    (int, int, int),
) {
    let lc = crate::shading::light_at(l, hit.hit_point);
    let ldir = crate::vec3::vsub(l.spec_position(), hit.hit_point);
    let dm = crate::shading::unit_cos_milli(ldir, hit.normal);
    let view = crate::vec3::vsub(hit.ray.origin, hit.hit_point);
    let rl = crate::vec3::vec_of3(
        crate::hit::sreduce(
            crate::shading::reflect_scaled(crate::vec3::vneg(ldir), hit.normal, 0),
            crate::shading::reflect_scaled(crate::vec3::vneg(ldir), hit.normal, 1),
            crate::shading::reflect_scaled(crate::vec3::vneg(ldir), hit.normal, 2),
            0x1000_0000_0000,
        ),
    );
    let sp = crate::shading::pow_milli(crate::shading::unit_cos_milli(view, rl), shine as nat);
    (
        ((lc.0 * dm) / 1000, (lc.1 * dm) / 1000, (lc.2 * dm) / 1000),
        ((lc.0 * sp) / 1000, (lc.1 * sp) / 1000, (lc.2 * sp) / 1000),
    )
}

/// The summed Phong light terms over a list of lights.
pub open spec fn phong_terms(lights: Seq<Light>, hit: HitData, shine: u32) -> (
    (int, int, int),
    (int, int, int),
)
    decreases lights.len(),
{
    if lights.len() == 0 {
        ((0, 0, 0), (0, 0, 0))
    } else {
        let rest = phong_terms(lights.drop_last(), hit, shine);
        let e = phong_light_entry(lights.last(), hit, shine);
        (
            (rest.0.0 + e.0.0, rest.0.1 + e.0.1, rest.0.2 + e.0.2),
            (rest.1.0 + e.1.0, rest.1.1 + e.1.1, rest.1.2 + e.1.2),
        )
    }
}

/// One light's contributions with the half-vector specular direction
/// (the Hall model).
pub open spec fn hall_light_entry(l: Light, hit: HitData, shine: u32) -> (
    (int, int, int),
    (int, int, int),
) {
    let lc = crate::shading::light_at(l, hit.hit_point);
    let ldir = crate::vec3::vsub(l.spec_position(), hit.hit_point);
    let dm = crate::shading::unit_cos_milli(ldir, hit.normal);
    let view = crate::vec3::vsub(hit.ray.origin, hit.hit_point);
    let half = crate::vec3::vec_of3(
        crate::hit::sreduce(
            spec_half_raw(ldir, view, 0),
            spec_half_raw(ldir, view, 1),
            spec_half_raw(ldir, view, 2),
            0x1000_0000_0000,
        ),
    );
    let sp = crate::shading::pow_milli(crate::shading::unit_cos_milli(hit.normal, half), shine as nat);
    (
        ((lc.0 * dm) / 1000, (lc.1 * dm) / 1000, (lc.2 * dm) / 1000),
        ((lc.0 * sp) / 1000, (lc.1 * sp) / 1000, (lc.2 * sp) / 1000),
    )
}

/// The summed Hall light terms over a list of lights.
pub open spec fn hall_terms(lights: Seq<Light>, hit: HitData, shine: u32) -> (
    (int, int, int),
    (int, int, int),
)
    decreases lights.len(),
{
    if lights.len() == 0 {
        ((0, 0, 0), (0, 0, 0))
    } else {
        let rest = hall_terms(lights.drop_last(), hit, shine);
        let e = hall_light_entry(lights.last(), hit, shine);
        (
            (rest.0.0 + e.0.0, rest.0.1 + e.0.1, rest.0.2 + e.0.2),
            (rest.1.0 + e.1.0, rest.1.1 + e.1.1, rest.1.2 + e.1.2),
        )
    }
}

/// One Hall combination channel as a value:
/// `color * (factor * sum + 1000 * extra) / 255000`.
pub open spec fn spec_hall_term(color: int, factor: int, sum: int, extra: int) -> int {
    (color * (factor * sum + 1000 * extra)) / 255000
}

/// Flat shading as a value: the albedo plus the summed attenuated
/// light colors.
pub open spec fn spec_flat(f: Flat, lights: Seq<Light>, p: Vec3) -> Vec3 {
    let s = lights_sum(lights, p);
    Vec3 {
        x: (f.albedo.x + s.0) as i64,
        y: (f.albedo.y + s.1) as i64,
        z: (f.albedo.z + s.2) as i64,
    }
}

/// Phong shading as a value: per channel
/// `albedo * (kd*diffuse + ks*specular + 255*ka) / 255000`.
pub open spec fn spec_phong(ph: Phong, lights: Seq<Light>, hit: HitData) -> Vec3 {
    let t = phong_terms(lights, hit, ph.shine_factor);
    Vec3 {
        x: ((ph.albedo.x * (ph.diffuse_factor * t.0.0 + ph.specular_factor * t.1.0 + 255
            * ph.ambient_factor)) / 255000) as i64,
        y: ((ph.albedo.y * (ph.diffuse_factor * t.0.1 + ph.specular_factor * t.1.1 + 255
            * ph.ambient_factor)) / 255000) as i64,
        z: ((ph.albedo.z * (ph.diffuse_factor * t.0.2 + ph.specular_factor * t.1.2 + 255
            * ph.ambient_factor)) / 255000) as i64,
    }
}

pub struct Scene {
    pub main_camera: Camera,
    pub render_shadows: bool,
    /// Leaf threshold of the acceleration tree; zero disables it.
    pub acc_obj_num: u64,
    pub bvh_root: BvhNode,
    pub render_distance: Tval,
    pub objects: Vec<SceneObject>,
    pub background_color: Vec3,
    pub lights: Vec<Light>,
    pub ambient_lights: Vec<AmbientLight>,
    pub max_ray_depth: u32,
    /// Refractive index of the surrounding medium, in thousandths.
    pub refractive_index: i64,
    pub render_resolution: (u32, u32),
}

impl Scene {
    pub open spec fn wf(self) -> bool {
        &&& self.main_camera.wf()
        &&& self.lights@.len() <= 1024
        &&& forall|i: int| 0 <= i < self.lights@.len() ==> (#[trigger] self.lights@[i]).wf()
        &&& self.ambient_lights@.len() <= 1024
        &&& forall|i: int|
            0 <= i < self.ambient_lights@.len() ==> (#[trigger] self.ambient_lights@[i]).wf()
        &&& crate::materials::color_wf(self.background_color)
        &&& self.render_distance.valid()
        &&& self.render_distance.num >= 0
        &&& capped(self.render_distance)
        &&& 1 <= self.refractive_index <= 10000
        &&& self.max_ray_depth <= 64
        &&& forall|i: int| 0 <= i < self.objects@.len() ==> (#[trigger] self.objects@[i]).wf()
        &&& self.bvh_root.wf()
    }

    /// The primitives a ray query runs against: the tree's contents when
    /// acceleration is on, the decomposed object list otherwise.
    pub open spec fn spec_prims(self) -> Seq<Primitive> {
        if self.acc_obj_num > 0 {
            self.bvh_root.subtree_prims()
        } else {
            sdecompose_all(self.objects@)
        }
    }

    /// What a ray cast computes, as a value: the traversal's record when
    /// acceleration is on, the scan's otherwise, out to `t_max`.
    pub open spec fn spec_cast(self, ray: Ray, t_max: Tval) -> HitData {
        if self.acc_obj_num > 0 {
            BvhNode::spec_bvh_hit(self.bvh_root, ray, Tval { num: 0i128, den: 1i128 }, t_max)
        } else {
            crate::primitive::spec_scan(
                sdecompose_all(self.objects@),
                ray,
                Tval { num: 0i128, den: 1i128 },
                t_max,
            )
        }
    }

    /// Hall shading as a value: the half-vector light terms and ambient
    /// sum, plus the clamped recursively traced reflection and
    /// refraction contributions while the depth allows and the offset
    /// secondary origin stays on the grid.
    pub open spec fn spec_hall(self, hl: Hall, ray: Ray, hit: HitData, depth: u32) -> Vec3
        decreases (self.max_ray_depth - depth) as int, 0int,
    {
        let t = hall_terms(self.lights@, hit, hl.shine_factor);
        let amb = ambient_sum(self.ambient_lights@, hl.ambient_factor as int);
        let refl: (int, int, int) = if hl.reflect_factor > 0 && depth < self.max_ray_depth {
            let off = spec_sign_offset(hit.hit_point, hit.normal);
            if off.0 {
                let rdir = crate::vec3::vec_of3(
                    crate::hit::sreduce(
                        crate::shading::reflect_scaled(ray.direction, hit.normal, 0),
                        crate::shading::reflect_scaled(ray.direction, hit.normal, 1),
                        crate::shading::reflect_scaled(ray.direction, hit.normal, 2),
                        crate::vec3::DIR_MAX as int,
                    ),
                );
                let rc = crate::shading::spec_clamp_bounce(
                    self.spec_color(Ray { origin: off.1, direction: rdir }, (depth + 1) as u32),
                );
                (
                    (rc.x * hl.reflect_factor) / 255000,
                    (rc.y * hl.reflect_factor) / 255000,
                    (rc.z * hl.reflect_factor) / 255000,
                )
            } else {
                (0, 0, 0)
            }
        } else {
            (0, 0, 0)
        };
        let refr: (int, int, int) = if hl.transmissive_factor > 0 && depth
            < self.max_ray_depth {
            let entering = crate::vec3::sdot(ray.direction, hit.normal) < 0;
            let neff = if entering {
                hit.normal
            } else {
                crate::vec3::vneg(hit.normal)
            };
            let en = if entering {
                self.refractive_index
            } else {
                hl.refractive_index
            };
            let ed = if entering {
                hl.refractive_index
            } else {
                self.refractive_index
            };
            if !(crate::shading::refract_k(
                en as int,
                ed as int,
                crate::shading::opp_cos_milli(ray.direction, neff),
            ) < 0) {
                let tdir = crate::vec3::vec_of3(
                    crate::hit::sreduce(
                        crate::shading::refract_scaled(ray.direction, neff, en as int, ed as int, 0),
                        crate::shading::refract_scaled(ray.direction, neff, en as int, ed as int, 1),
                        crate::shading::refract_scaled(ray.direction, neff, en as int, ed as int, 2),
                        crate::vec3::DIR_MAX as int,
                    ),
                );
                let off = spec_sign_offset(hit.hit_point, tdir);
                if off.0 {
                    let tc = crate::shading::spec_clamp_bounce(
                        self.spec_color(Ray { origin: off.1, direction: tdir }, (depth + 1) as u32),
                    );
                    (
                        (tc.x * hl.transmissive_factor * hl.t_color.x) / 255000,
                        (tc.y * hl.transmissive_factor * hl.t_color.y) / 255000,
                        (tc.z * hl.transmissive_factor * hl.t_color.z) / 255000,
                    )
                } else {
                    (0, 0, 0)
                }
            } else {
                (0, 0, 0)
            }
        } else {
            (0, 0, 0)
        };
        Vec3 {
            x: (spec_hall_term(hl.d_color.x as int, hl.diffuse_factor as int, t.0.0, amb.0)
                + spec_hall_term(hl.s_color.x as int, hl.specular_factor as int, t.1.0, refl.0)
                + refr.0) as i64,
            y: (spec_hall_term(hl.d_color.y as int, hl.diffuse_factor as int, t.0.1, amb.1)
                + spec_hall_term(hl.s_color.y as int, hl.specular_factor as int, t.1.1, refl.1)
                + refr.1) as i64,
            z: (spec_hall_term(hl.d_color.z as int, hl.diffuse_factor as int, t.0.2, amb.2)
                + spec_hall_term(hl.s_color.z as int, hl.specular_factor as int, t.1.2, refl.2)
                + refr.2) as i64,
        }
    }

    /// The base surface color of a hit, as a value, dispatched on the
    /// material.
    pub open spec fn spec_shade(self, ray: Ray, hit: HitData, depth: u32) -> Vec3
        decreases (self.max_ray_depth - depth) as int, 1int,
    {
        match hit.mat {
            Material::Flat(f) => spec_flat(f, self.lights@, hit.hit_point),
            Material::Phong(ph) => spec_phong(ph, self.lights@, hit),
            Material::Hall(hl) => self.spec_hall(hl, ray, hit, depth),
        }
    }

    /// The shadow pass over the first `k` lights, as a value: a light
    /// whose direction the surface faces, whose shadow ray stays on the
    /// grid and meets a front-facing occluder before reaching it, takes
    /// three tenths of the base off the running color.
    pub open spec fn spec_shadow_upto(self, hit: HitData, base: Vec3, k: int) -> Vec3
        decreases k,
    {
        if k <= 0 {
            base
        } else {
            let prev = self.spec_shadow_upto(hit, base, k - 1);
            let l = self.lights@[k - 1];
            let off = spec_sign_offset(hit.hit_point, hit.normal);
            if off.0 {
                let sdir = crate::vec3::vsub(l.spec_position(), off.1);
                if crate::vec3::sdot(hit.normal, sdir) > 0 {
                    let sh = self.spec_cast(
                        Ray { origin: off.1, direction: sdir },
                        Tval { num: 1i128, den: 1i128 },
                    );
                    if sh.did_hit && crate::vec3::sdot(sdir, sh.normal) <= 0 {
                        Vec3 {
                            x: crate::shading::shadow_step(prev.x as int, base.x as int) as i64,
                            y: crate::shading::shadow_step(prev.y as int, base.y as int) as i64,
                            z: crate::shading::shadow_step(prev.z as int, base.z as int) as i64,
                        }
                    } else {
                        prev
                    }
                } else {
                    prev
                }
            } else {
                prev
            }
        }
    }

    /// The color resolved along a ray, as a value: the background on a
    /// miss, else the material's shade with the shadow pass applied when
    /// shadows are on.
    pub open spec fn spec_color(self, ray: Ray, depth: u32) -> Vec3
        decreases (self.max_ray_depth - depth) as int, 2int,
    {
        let hit = self.spec_cast(ray, self.render_distance);
        if hit.did_hit {
            let base = self.spec_shade(ray, hit, depth);
            if self.render_shadows {
                self.spec_shadow_upto(hit, base, self.lights@.len() as int)
            } else {
                base
            }
        } else {
            self.background_color
        }
    }

    pub fn new(
        render_resolution: (u32, u32),
        render_distance: Tval,
        background_color: Vec3,
        main_camera: Camera,
        acc_obj_num: u64,
        max_ray_depth: u32,
        refractive_index: i64,
        render_shadows: bool,
    ) -> (r: Scene)
        requires
            render_distance.valid(),
            render_distance.num >= 0,
            capped(render_distance),
            crate::materials::color_wf(background_color),
            main_camera.wf(),
            1 <= refractive_index <= 10000,
            max_ray_depth <= 64,
        ensures
            r.wf(),
            r.render_resolution == render_resolution,
            r.render_distance == render_distance,
            r.background_color == background_color,
            r.main_camera == main_camera,
            r.acc_obj_num == acc_obj_num,
            r.max_ray_depth == max_ray_depth,
            r.refractive_index == refractive_index,
            r.render_shadows == render_shadows,
            r.objects@.len() == 0,
            r.lights@.len() == 0,
            r.ambient_lights@.len() == 0,
    {
        Scene {
            main_camera,
            render_shadows,
            acc_obj_num,
            bvh_root: BvhNode::new(),
            render_distance,
            objects: Vec::new(),
            background_color,
            lights: Vec::new(),
            ambient_lights: Vec::new(),
            max_ray_depth,
            refractive_index,
            render_resolution,
        }
    }

    /// Add a single renderable object.
    pub fn push_object(&mut self, obj: SceneObject)
        requires
            obj.wf(),
        ensures
            final(self).objects@ == old(self).objects@.push(obj),
            *final(self) == (Scene { objects: final(self).objects, ..*old(self) }),
            old(self).wf() ==> final(self).wf(),
    {
        self.objects.push(obj);
        proof {
            if old(self).wf() {
                assert forall|i: int| 0 <= i < self.objects@.len() implies (
                #[trigger] self.objects@[i]).wf() by {
                    if i < old(self).objects@.len() {
                        assert(self.objects@[i] == old(self).objects@[i]);
                    }
                }
            }
        }
    }

    /// Add several renderable objects.
    pub fn add_objects(&mut self, objects: Vec<SceneObject>)
        requires
            forall|i: int| 0 <= i < objects@.len() ==> (#[trigger] objects@[i]).wf(),
        ensures
            final(self).objects@ == old(self).objects@ + objects@,
            *final(self) == (Scene { objects: final(self).objects, ..*old(self) }),
            old(self).wf() ==> final(self).wf(),
    {
        let ghost all = objects@;
        let n = objects.len();
        let mut rest = objects;
        let mut k: usize = 0;
        proof {
            assert(self.objects@ =~= old(self).objects@ + all.subrange(0, 0));
            assert(rest@ =~= all.subrange(0, n as int));
        }
        while k < n
            invariant
                k <= n,
                n == all.len(),
                forall|i: int| 0 <= i < all.len() ==> (#[trigger] all[i]).wf(),
                rest@ == all.subrange(k as int, n as int),
                self.objects@ == old(self).objects@ + all.subrange(0, k as int),
                *self == (Scene { objects: self.objects, ..*old(self) }),
                old(self).wf() ==> self.wf(),
            decreases n - k,
        {
            let obj = rest.remove(0);
            proof {
                assert(obj == all[k as int]);
                assert(rest@ =~= all.subrange(k as int + 1, n as int));
            }
            self.push_object(obj);
            k = k + 1;
            proof {
                assert(self.objects@ =~= old(self).objects@ + all.subrange(0, k as int));
            }
        }
        proof {
            assert(all.subrange(0, n as int) =~= all);
        }
    }

    pub fn push_light(&mut self, light: Light)
        requires
            light.wf(),
            old(self).lights@.len() < 1024,
        ensures
            final(self).lights@ == old(self).lights@.push(light),
            *final(self) == (Scene { lights: final(self).lights, ..*old(self) }),
            old(self).wf() ==> final(self).wf(),
    {
        self.lights.push(light);
        proof {
            if old(self).wf() {
                assert forall|i: int| 0 <= i < self.lights@.len() implies (
                #[trigger] self.lights@[i]).wf() by {
                    if i < old(self).lights@.len() {
                        assert(self.lights@[i] == old(self).lights@[i]);
                    }
                }
            }
        }
    }

    pub fn push_ambient_light(&mut self, light: AmbientLight)
        requires
            light.wf(),
            old(self).ambient_lights@.len() < 1024,
        ensures
            final(self).ambient_lights@ == old(self).ambient_lights@.push(light),
            *final(self) == (Scene { ambient_lights: final(self).ambient_lights, ..*old(self) }),
            old(self).wf() ==> final(self).wf(),
    {
        self.ambient_lights.push(light);
        proof {
            if old(self).wf() {
                assert forall|i: int| 0 <= i < self.ambient_lights@.len() implies (
                #[trigger] self.ambient_lights@[i]).wf() by {
                    if i < old(self).ambient_lights@.len() {
                        assert(self.ambient_lights@[i] == old(self).ambient_lights@[i]);
                    }
                }
            }
        }
    }

    /// Flatten every object into its primitives.
    pub fn decompose_objects(&self) -> (r: HittableList)
        requires
            forall|i: int| 0 <= i < self.objects@.len() ==> (#[trigger] self.objects@[i]).wf(),
        ensures
            r.prims() == sdecompose_all(self.objects@),
            r.wf(),
    {
        let mut out = HittableList::new();
        let n = self.objects.len();
        let mut k: usize = 0;
        proof {
            assert(out.prims() =~= sdecompose_all(self.objects@.subrange(0, 0)));
        }
        while k < n
            invariant
                k <= n,
                n == self.objects@.len(),
                forall|i: int| 0 <= i < self.objects@.len() ==> (#[trigger] self.objects@[i]).wf(),
                out.prims() == sdecompose_all(self.objects@.subrange(0, k as int)),
                out.wf(),
            decreases n - k,
        {
            let piece = self.objects[k].decompose();
            out.extend(piece);
            k = k + 1;
            proof {
                let pre = self.objects@.subrange(0, k as int - 1);
                let cur = self.objects@.subrange(0, k as int);
                assert(cur.drop_last() =~= pre);
                assert(cur.last() == self.objects@[k as int - 1]);
            }
        }
        proof {
            assert(self.objects@.subrange(0, n as int) =~= self.objects@);
        }
        out
    }

    /// Rebuild the acceleration tree over the current objects (when the
    /// leaf threshold enables it).
    pub fn build_acceleration(&mut self)
        requires
            old(self).wf(),
        ensures
            final(self).wf(),
            *final(self) == (Scene { bvh_root: final(self).bvh_root, ..*old(self) }),
            old(self).acc_obj_num > 0 ==> final(self).bvh_root.subtree_prims().to_multiset()
                == sdecompose_all(old(self).objects@).to_multiset(),
    {
        if self.acc_obj_num > 0 {
            let all = self.decompose_objects();
            let root = BvhNode::from(all, 0, self.acc_obj_num);
            self.bvh_root = root;
        }
    }

    /// The zero ray parameter.
    fn t_zero() -> (r: Tval)
        ensures
            r == (Tval { num: 0i128, den: 1i128 }),
            r.valid(),
    {
        Tval { num: 0, den: 1 }
    }

    /// Cast a ray against the scene geometry: through the acceleration
    /// tree when enabled, by brute-force scan otherwise, out to the
    /// render distance.
    fn cast(&self, ray: Ray) -> (h: HitData)
        requires
            self.wf(),
            ray.wf(),
        ensures
            h == self.spec_cast(ray, self.render_distance),
            h.t.valid(),
            !h.did_hit ==> h == HitData::spec_miss(),
            h.did_hit ==> h.t.num >= 0 && capped(h.t),
            h.did_hit ==> crate::hit::hit_sane(h),
            h.did_hit ==> exists|i: int|
                0 <= i < self.spec_prims().len() && crate::primitive::hit_matches(
                    #[trigger] self.spec_prims()[i],
                    ray,
                    Tval { num: 0i128, den: 1i128 },
                    self.render_distance,
                    h,
                ),
            (self.acc_obj_num > 0 ==> no_planes(self.spec_prims())) ==> (h.did_hit
                <==> exists|i: int|
                0 <= i < self.spec_prims().len() && (#[trigger] self.spec_prims()[i]).hit_t(
                    ray,
                    Tval { num: 0i128, den: 1i128 },
                    self.render_distance,
                ) is Some),
    {
        let t0 = Scene::t_zero();
        proof {
            assert(sle(t0, self.render_distance)) by (nonlinear_arith)
                requires
                    t0 == (Tval { num: 0i128, den: 1i128 }),
                    self.render_distance.num >= 0,
                    self.render_distance.den >= 1,
            ;
        }
        if self.acc_obj_num > 0 {
            let h = self.bvh_root.hit(ray, t0, self.render_distance);
            proof {
                if no_planes(self.spec_prims()) {
                    if h.did_hit {
                        let i = choose|i: int|
                            0 <= i < self.spec_prims().len() && crate::primitive::hit_matches(
                                #[trigger] self.spec_prims()[i],
                                ray,
                                t0,
                                self.render_distance,
                                h,
                            );
                        assert(self.spec_prims()[i].hit_t(ray, t0, self.render_distance) is Some);
                    }
                }
            }
            h
        } else {
            let list = self.decompose_objects();
            let h = list.hit(ray, t0, self.render_distance);
            proof {
                crate::primitive::lemma_best_is_min(list.prims(), ray, t0, self.render_distance, h);
                if h.did_hit {
                    let i = choose|i: int|
                        crate::primitive::is_winner(list.prims(), ray, t0, self.render_distance, h, i);
                    assert(crate::primitive::hit_matches(
                        self.spec_prims()[i],
                        ray,
                        t0,
                        self.render_distance,
                        h,
                    ));
                }
            }
            h
        }
    }

    /// Cast a ray only out to the given parameter: the shadow test,
    /// which must stop at the light.
    fn cast_limited(&self, ray: Ray, t_max: Tval) -> (h: HitData)
        requires
            self.wf(),
            ray.wf(),
            t_max.valid(),
            t_max.num >= 0,
            crate::rat::capped(t_max),
        ensures
            h == self.spec_cast(ray, t_max),
            h.t.valid(),
            !h.did_hit ==> h == HitData::spec_miss(),
            h.did_hit ==> crate::hit::hit_sane(h),
    {
        let t0 = Scene::t_zero();
        proof {
            assert(sle(t0, t_max)) by (nonlinear_arith)
                requires
                    t0 == (Tval { num: 0i128, den: 1i128 }),
                    t_max.num >= 0,
                    t_max.den >= 1,
            ;
        }
        if self.acc_obj_num > 0 {
            self.bvh_root.hit(ray, t0, t_max)
        } else {
            let list = self.decompose_objects();
            list.hit(ray, t0, t_max)
        }
    }

    /// The color seen along a ray: the background when nothing is hit,
    /// otherwise the material's shade, darkened by three tenths of itself
    /// for every light something occludes.
    pub fn get_color_from_ray(&self, ray: Ray, depth: u32) -> (r: Vec3)
        requires
            self.wf(),
            ray.wf(),
        ensures
            r == self.spec_color(ray, depth),
            r.bounded(COLOR_MAX as int),
            ((forall|i: int|
                0 <= i < self.spec_prims().len() ==> (#[trigger] self.spec_prims()[i]).hit_t(
                    ray,
                    Tval { num: 0i128, den: 1i128 },
                    self.render_distance,
                ) is None) && (self.acc_obj_num > 0 ==> no_planes(self.spec_prims()))) ==> r
                == self.background_color,
        decreases (self.max_ray_depth - depth) as int, 1int,
    {
        let hit = self.cast(ray);
        if hit.did_hit {
            let base = self.shade(ray, &hit, depth);
            if self.render_shadows {
                self.shadow_pass(&hit, base)
            } else {
                base
            }
        } else {
            self.background_color
        }
    }

    /// The shadow test: for every light whose direction the surface
    /// faces, cast a ray from just off the hit point to the light; each
    /// ray that meets a front-facing occluder takes exactly three tenths
    /// of the unshadowed base color off the result, cumulatively and
    /// without clamping — the result is always `shadow_fold(base, k)`
    /// for the number `k` of occluded lights.
    #[verifier::rlimit(60)]
    pub fn shadow_pass(&self, hit: &HitData, base: Vec3) -> (r: Vec3)
        requires
            self.wf(),
            crate::hit::hit_sane(*hit),
            base.bounded(0x10_0000_0000),
        ensures
            r == self.spec_shadow_upto(*hit, base, self.lights@.len() as int),
            exists|k: int|
                0 <= k <= self.lights@.len() && r == #[trigger] spec_shadow_fold(
                    base,
                    k,
                ),
            r.bounded(COLOR_MAX as int),
    {
        let mut final_color = base;
        let ghost mut occluded: int = 0;
        proof {
            assert(spec_shadow_fold(base, 0) == base);
        }
        let n = self.lights.len();
        let mut k: usize = 0;
        while k < n
            invariant
                k <= n,
                n == self.lights@.len(),
                self.wf(),
                crate::hit::hit_sane(*hit),
                base.bounded(0x10_0000_0000),
                0 <= occluded <= k,
                final_color == spec_shadow_fold(base, occluded),
                final_color == self.spec_shadow_upto(*hit, base, k as int),
                final_color.bounded(0x10_0000_0000 + 0x10_0000_0000 * (k as int)),
            decreases n - k,
        {
            let l = self.lights[k];
            let off = sign_offset(hit.hit_point, hit.normal);
            if off.0 {
                let sorigin = off.1;
                let sdir = l.get_position().sub_v(sorigin);
                proof {
                    assert(sdir == crate::vec3::vsub(l.spec_position(), off.1));
                }
                proof {
                    lemma_mul_bound(hit.normal.x as int, sdir.x as int, crate::vec3::NORMAL_MAX as int, 0x3000);
                    lemma_mul_bound(hit.normal.y as int, sdir.y as int, crate::vec3::NORMAL_MAX as int, 0x3000);
                    lemma_mul_bound(hit.normal.z as int, sdir.z as int, crate::vec3::NORMAL_MAX as int, 0x3000);
                }
                let nds = hit.normal.dot(sdir);
                if nds > 0 {
                    let shadow_ray = Ray { origin: sorigin, direction: sdir };
                    let to_light = Tval { num: 1, den: 1 };
                    let shadow_hit = self.cast_limited(shadow_ray, to_light);
                    if shadow_hit.did_hit {
                        proof {
                            lemma_mul_bound(sdir.x as int, shadow_hit.normal.x as int, 0x3000, crate::vec3::NORMAL_MAX as int);
                            lemma_mul_bound(sdir.y as int, shadow_hit.normal.y as int, 0x3000, crate::vec3::NORMAL_MAX as int);
                            lemma_mul_bound(sdir.z as int, shadow_hit.normal.z as int, 0x3000, crate::vec3::NORMAL_MAX as int);
                        }
                        let facing = sdir.dot(shadow_hit.normal);
                        if facing <= 0 {
                            final_color = apply_shadow(final_color, base);
                            proof {
                                occluded = occluded + 1;
                            }
                        }
                    }
                }
            }
            k = k + 1;
        }
        final_color
    }

    /// The base surface color of a hit under this scene's lights,
    /// dispatched on the material.
    fn shade(&self, ray: Ray, hit: &HitData, depth: u32) -> (r: Vec3)
        requires
            self.wf(),
            ray.wf(),
            hit.did_hit,
            hit.hit_point.bounded(POINT_MAX as int),
            hit.normal.bounded(crate::vec3::NORMAL_MAX as int),
            hit.ray.wf(),
            hit.mat.wf(),
        ensures
            r == self.spec_shade(ray, *hit, depth),
            r.bounded(0x10_0000_0000),
        decreases (self.max_ray_depth - depth) as int, 0int,
    {
        match hit.mat {
            Material::Flat(f) => self.shade_flat(f, hit.hit_point),
            Material::Phong(ph) => self.shade_phong(ph, hit),
            Material::Hall(hl) => self.shade_hall(hl, ray, hit, depth),
        }
    }

    /// Flat shading: the albedo plus the attenuated color of every light.
    pub fn shade_flat(&self, f: Flat, p: Vec3) -> (r: Vec3)
        requires
            self.wf(),
            f.wf(),
            p.bounded(POINT_MAX as int),
        ensures
            r == spec_flat(f, self.lights@, p),
            (r.x as int, r.y as int, r.z as int) == {
                let s = lights_sum(self.lights@, p);
                (f.albedo.x + s.0, f.albedo.y + s.1, f.albedo.z + s.2)
            },
            r.bounded(0x10_0000_0000),
    {
        let s = self.sum_lights(p);
        Vec3 { x: f.albedo.x + s.x, y: f.albedo.y + s.y, z: f.albedo.z + s.z }
    }

    /// The summed attenuated light colors at a point.
    fn sum_lights(&self, p: Vec3) -> (r: Vec3)
        requires
            self.wf(),
            p.bounded(POINT_MAX as int),
        ensures
            (r.x as int, r.y as int, r.z as int) == lights_sum(self.lights@, p),
            r.bounded((1024 * 255) as int),
            r.x >= 0 && r.y >= 0 && r.z >= 0,
    {
        let mut acc = Vec3 { x: 0, y: 0, z: 0 };
        let n = self.lights.len();
        let mut k: usize = 0;
        proof {
            assert(self.lights@.subrange(0, 0) =~= Seq::<Light>::empty());
        }
        while k < n
            invariant
                k <= n,
                n == self.lights@.len(),
                self.wf(),
                p.bounded(POINT_MAX as int),
                (acc.x as int, acc.y as int, acc.z as int) == lights_sum(
                    self.lights@.subrange(0, k as int),
                    p,
                ),
                acc.bounded(255 * (k as int)),
                acc.x >= 0 && acc.y >= 0 && acc.z >= 0,
            decreases n - k,
        {
            let l = self.lights[k];
            let c = light_color_at(&l, p);
            acc = Vec3 { x: acc.x + c.x, y: acc.y + c.y, z: acc.z + c.z };
            k = k + 1;
            proof {
                let cur = self.lights@.subrange(0, k as int);
                assert(cur.drop_last() =~= self.lights@.subrange(0, k as int - 1));
                assert(cur.last() == self.lights@[k as int - 1]);
            }
        }
        proof {
            assert(self.lights@.subrange(0, n as int) =~= self.lights@);
        }
        acc
    }

    /// Phong shading: per light a diffuse cosine term and a specular term
    /// against the mirrored light direction, weighted and scaled by the
    /// albedo.
    pub fn shade_phong(&self, ph: Phong, hit: &HitData) -> (r: Vec3)
        requires
            self.wf(),
            ph.wf(),
            hit.hit_point.bounded(POINT_MAX as int),
            hit.normal.bounded(crate::vec3::NORMAL_MAX as int),
            hit.ray.wf(),
        ensures
            r == spec_phong(ph, self.lights@, *hit),
            r.bounded(0x10_0000_0000),
    {
        let (d, s) = self.light_terms(hit, ph.shine_factor);
        proof {
            lemma_mul_bound(ph.diffuse_factor as int, d.x as int, 1000, 0x40000);
            lemma_mul_bound(ph.diffuse_factor as int, d.y as int, 1000, 0x40000);
            lemma_mul_bound(ph.diffuse_factor as int, d.z as int, 1000, 0x40000);
            lemma_mul_bound(ph.specular_factor as int, s.x as int, 1000, 0x40000);
            lemma_mul_bound(ph.specular_factor as int, s.y as int, 1000, 0x40000);
            lemma_mul_bound(ph.specular_factor as int, s.z as int, 1000, 0x40000);
        }
        let inner_x = ph.diffuse_factor * d.x + ph.specular_factor * s.x + 255
            * ph.ambient_factor;
        let inner_y = ph.diffuse_factor * d.y + ph.specular_factor * s.y + 255
            * ph.ambient_factor;
        let inner_z = ph.diffuse_factor * d.z + ph.specular_factor * s.z + 255
            * ph.ambient_factor;
        let cx = scale_channel(ph.albedo.x, inner_x);
        let cy = scale_channel(ph.albedo.y, inner_y);
        let cz = scale_channel(ph.albedo.z, inner_z);
        Vec3 { x: cx, y: cy, z: cz }
    }

    /// Summed diffuse and specular light terms at a hit, using the
    /// mirrored-light specular direction.
    fn light_terms(&self, hit: &HitData, shine: u32) -> (r: (Vec3, Vec3))
        requires
            self.wf(),
            hit.hit_point.bounded(POINT_MAX as int),
            hit.normal.bounded(crate::vec3::NORMAL_MAX as int),
            hit.ray.wf(),
        ensures
            ((r.0.x as int, r.0.y as int, r.0.z as int), (r.1.x as int, r.1.y as int,
            r.1.z as int)) == phong_terms(self.lights@, *hit, shine),
            r.0.bounded((1024 * 255) as int),
            r.1.bounded((1024 * 255) as int),
            r.0.x >= 0 && r.0.y >= 0 && r.0.z >= 0,
            r.1.x >= 0 && r.1.y >= 0 && r.1.z >= 0,
    {
        let mut diff = Vec3 { x: 0, y: 0, z: 0 };
        let mut spec = Vec3 { x: 0, y: 0, z: 0 };
        let n = self.lights.len();
        let mut k: usize = 0;
        proof {
            assert(self.lights@.subrange(0, 0) =~= Seq::<Light>::empty());
        }
        while k < n
            invariant
                k <= n,
                n == self.lights@.len(),
                self.wf(),
                hit.hit_point.bounded(POINT_MAX as int),
                hit.normal.bounded(crate::vec3::NORMAL_MAX as int),
                hit.ray.wf(),
                    ((diff.x as int, diff.y as int, diff.z as int), (spec.x as int, spec.y as int,
                spec.z as int)) == phong_terms(self.lights@.subrange(0, k as int), *hit, shine),
                diff.bounded(255 * (k as int)),
                spec.bounded(255 * (k as int)),
                diff.x >= 0 && diff.y >= 0 && diff.z >= 0,
                spec.x >= 0 && spec.y >= 0 && spec.z >= 0,
            decreases n - k,
        {
            let l = self.lights[k];
            let lc = light_color_at(&l, hit.hit_point);
            let ldir = l.get_position().sub_v(hit.hit_point);
            let dm = unit_cos(ldir, hit.normal);
            let view = hit.ray.origin.sub_v(hit.hit_point);
            let lneg = Vec3 { x: -ldir.x, y: -ldir.y, z: -ldir.z };
            let rl = reflect_dir_wide(lneg, hit.normal);
            let sp = pow_factor(unit_cos(view, rl), shine);
            let dx = mul_div_1000(lc.x, dm);
            let dy = mul_div_1000(lc.y, dm);
            let dz = mul_div_1000(lc.z, dm);
            let sx = mul_div_1000(lc.x, sp);
            let sy = mul_div_1000(lc.y, sp);
            let sz = mul_div_1000(lc.z, sp);
            proof {
                assert(ldir == crate::vec3::vsub(l.spec_position(), hit.hit_point));
                assert(lneg == crate::vec3::vneg(ldir));
                assert(view == crate::vec3::vsub(hit.ray.origin, hit.hit_point));
            }
            diff = Vec3 { x: diff.x + dx, y: diff.y + dy, z: diff.z + dz };
            spec = Vec3 { x: spec.x + sx, y: spec.y + sy, z: spec.z + sz };
            k = k + 1;
            proof {
                let cur = self.lights@.subrange(0, k as int);
                assert(cur.drop_last() =~= self.lights@.subrange(0, k as int - 1));
                assert(cur.last() == self.lights@[k as int - 1]);
            }
        }
        proof {
            assert(self.lights@.subrange(0, n as int) =~= self.lights@);
        }
        (diff, spec)
    }

    /// Hall shading: diffuse and half-vector specular terms, an ambient
    /// term, and recursively traced reflection and refraction
    /// contributions while the depth allows.
    fn shade_hall(&self, hl: Hall, ray: Ray, hit: &HitData, depth: u32) -> (r: Vec3)
        requires
            self.wf(),
            ray.wf(),
            hl.wf(),
            hit.hit_point.bounded(POINT_MAX as int),
            hit.normal.bounded(crate::vec3::NORMAL_MAX as int),
            hit.ray.wf(),
        ensures
            r == self.spec_hall(hl, ray, *hit, depth),
            r.bounded(0x10_0000_0000),
        decreases (self.max_ray_depth - depth) as int, 0int, 0int,
    {
        let (d, s) = self.light_terms_half(hit, hl.shine_factor);
        let amb = self.sum_ambient(hl.ambient_factor);
        // Reflection.
        let mut refl = Vec3 { x: 0, y: 0, z: 0 };
        if hl.reflect_factor > 0 && depth < self.max_ray_depth {
            let off = sign_offset(hit.hit_point, hit.normal);
            if off.0 {
                let rdir = reflect_dir(ray.direction, hit.normal);
                let rray = Ray { origin: off.1, direction: rdir };
                let rc = clamp_bounce(self.get_color_from_ray(rray, depth + 1));
                refl = Vec3 {
                    x: mul_div_255000(rc.x, hl.reflect_factor),
                    y: mul_div_255000(rc.y, hl.reflect_factor),
                    z: mul_div_255000(rc.z, hl.reflect_factor),
                };
            }
        }
        // Refraction.
        let mut refr = Vec3 { x: 0, y: 0, z: 0 };
        if hl.transmissive_factor > 0 && depth < self.max_ray_depth {
            proof {
                lemma_mul_bound(ray.direction.x as int, hit.normal.x as int, crate::vec3::DIR_MAX as int, crate::vec3::NORMAL_MAX as int);
                lemma_mul_bound(ray.direction.y as int, hit.normal.y as int, crate::vec3::DIR_MAX as int, crate::vec3::NORMAL_MAX as int);
                lemma_mul_bound(ray.direction.z as int, hit.normal.z as int, crate::vec3::DIR_MAX as int, crate::vec3::NORMAL_MAX as int);
            }
            let entering = ray.direction.dot(hit.normal) < 0;
            let (neff, en, ed): (Vec3, i64, i64) = if entering {
                (hit.normal, self.refractive_index, hl.refractive_index)
            } else {
                (
                    Vec3 { x: -hit.normal.x, y: -hit.normal.y, z: -hit.normal.z },
                    hl.refractive_index,
                    self.refractive_index,
                )
            };
            let (tdir, tir) = crate::shading::refract_dir(ray.direction, neff, en, ed);
            if !tir {
                let off = sign_offset_dir(hit.hit_point, tdir);
                if off.0 {
                    let tray = Ray { origin: off.1, direction: tdir };
                    let tc = clamp_bounce(self.get_color_from_ray(tray, depth + 1));
                    refr = Vec3 {
                        x: mul3_div_255000(tc.x, hl.transmissive_factor, hl.t_color.x),
                        y: mul3_div_255000(tc.y, hl.transmissive_factor, hl.t_color.y),
                        z: mul3_div_255000(tc.z, hl.transmissive_factor, hl.t_color.z),
                    };
                }
            }
        }
        let dx = hall_term(hl.d_color.x, hl.diffuse_factor, d.x, amb.x);
        let dy = hall_term(hl.d_color.y, hl.diffuse_factor, d.y, amb.y);
        let dz = hall_term(hl.d_color.z, hl.diffuse_factor, d.z, amb.z);
        let sx = hall_term(hl.s_color.x, hl.specular_factor, s.x, refl.x);
        let sy = hall_term(hl.s_color.y, hl.specular_factor, s.y, refl.y);
        let sz = hall_term(hl.s_color.z, hl.specular_factor, s.z, refl.z);
        Vec3 { x: dx + sx + refr.x, y: dy + sy + refr.y, z: dz + sz + refr.z }
    }

    /// Summed diffuse and specular light terms at a hit, using the
    /// half-vector specular direction.
    fn light_terms_half(&self, hit: &HitData, shine: u32) -> (r: (Vec3, Vec3))
        requires
            self.wf(),
            hit.hit_point.bounded(POINT_MAX as int),
            hit.normal.bounded(crate::vec3::NORMAL_MAX as int),
            hit.ray.wf(),
        ensures
            ((r.0.x as int, r.0.y as int, r.0.z as int), (r.1.x as int, r.1.y as int,
            r.1.z as int)) == hall_terms(self.lights@, *hit, shine),
            r.0.bounded((1024 * 255) as int),
            r.1.bounded((1024 * 255) as int),
            r.0.x >= 0 && r.0.y >= 0 && r.0.z >= 0,
            r.1.x >= 0 && r.1.y >= 0 && r.1.z >= 0,
    {
        let mut diff = Vec3 { x: 0, y: 0, z: 0 };
        let mut spec = Vec3 { x: 0, y: 0, z: 0 };
        let n = self.lights.len();
        let mut k: usize = 0;
        proof {
            assert(self.lights@.subrange(0, 0) =~= Seq::<Light>::empty());
        }
        while k < n
            invariant
                k <= n,
                n == self.lights@.len(),
                self.wf(),
                hit.hit_point.bounded(POINT_MAX as int),
                hit.normal.bounded(crate::vec3::NORMAL_MAX as int),
                hit.ray.wf(),
                    ((diff.x as int, diff.y as int, diff.z as int), (spec.x as int, spec.y as int,
                spec.z as int)) == hall_terms(self.lights@.subrange(0, k as int), *hit, shine),
                diff.bounded(255 * (k as int)),
                spec.bounded(255 * (k as int)),
                diff.x >= 0 && diff.y >= 0 && diff.z >= 0,
                spec.x >= 0 && spec.y >= 0 && spec.z >= 0,
            decreases n - k,
        {
            let l = self.lights[k];
            let lc = light_color_at(&l, hit.hit_point);
            let ldir = l.get_position().sub_v(hit.hit_point);
            let dm = unit_cos(ldir, hit.normal);
            let view = hit.ray.origin.sub_v(hit.hit_point);
            let half = half_vector(ldir, view);
            let sp = pow_factor(unit_cos(hit.normal, half), shine);
            let dx = mul_div_1000(lc.x, dm);
            let dy = mul_div_1000(lc.y, dm);
            let dz = mul_div_1000(lc.z, dm);
            let sx = mul_div_1000(lc.x, sp);
            let sy = mul_div_1000(lc.y, sp);
            let sz = mul_div_1000(lc.z, sp);
            proof {
                assert(ldir == crate::vec3::vsub(l.spec_position(), hit.hit_point));
                assert(view == crate::vec3::vsub(hit.ray.origin, hit.hit_point));
            }
            diff = Vec3 { x: diff.x + dx, y: diff.y + dy, z: diff.z + dz };
            spec = Vec3 { x: spec.x + sx, y: spec.y + sy, z: spec.z + sz };
            k = k + 1;
            proof {
                let cur = self.lights@.subrange(0, k as int);
                assert(cur.drop_last() =~= self.lights@.subrange(0, k as int - 1));
                assert(cur.last() == self.lights@[k as int - 1]);
            }
        }
        proof {
            assert(self.lights@.subrange(0, n as int) =~= self.lights@);
        }
        (diff, spec)
    }

    /// Summed ambient contribution, each channel `ka * intensity / 1000`.
    fn sum_ambient(&self, ka: i64) -> (r: Vec3)
        requires
            self.wf(),
            0 <= ka <= FACTOR_ONE,
        ensures
            (r.x as int, r.y as int, r.z as int) == ambient_sum(self.ambient_lights@, ka as int),
            r.bounded((1024 * 255) as int),
            r.x >= 0 && r.y >= 0 && r.z >= 0,
    {
        let mut acc = Vec3 { x: 0, y: 0, z: 0 };
        let n = self.ambient_lights.len();
        let mut k: usize = 0;
        proof {
            assert(self.ambient_lights@.subrange(0, 0) =~= Seq::<AmbientLight>::empty());
        }
        while k < n
            invariant
                k <= n,
                n == self.ambient_lights@.len(),
                self.wf(),
                0 <= ka <= FACTOR_ONE,
                (acc.x as int, acc.y as int, acc.z as int) == ambient_sum(
                    self.ambient_lights@.subrange(0, k as int),
                    ka as int,
                ),
                acc.bounded(255 * (k as int)),
                acc.x >= 0 && acc.y >= 0 && acc.z >= 0,
            decreases n - k,
        {
            let a = self.ambient_lights[k];
            proof {
                assert(a.intensity.x * (ka as int) == ka as int * a.intensity.x) by (nonlinear_arith);
                assert(a.intensity.y * (ka as int) == ka as int * a.intensity.y) by (nonlinear_arith);
                assert(a.intensity.z * (ka as int) == ka as int * a.intensity.z) by (nonlinear_arith);
            }
            let cx = mul_div_1000(a.intensity.x, ka);
            let cy = mul_div_1000(a.intensity.y, ka);
            let cz = mul_div_1000(a.intensity.z, ka);
            acc = Vec3 { x: acc.x + cx, y: acc.y + cy, z: acc.z + cz };
            k = k + 1;
            proof {
                let cur = self.ambient_lights@.subrange(0, k as int);
                assert(cur.drop_last() =~= self.ambient_lights@.subrange(0, k as int - 1));
                assert(cur.last() == self.ambient_lights@[k as int - 1]);
            }
        }
        proof {
            assert(self.ambient_lights@.subrange(0, n as int) =~= self.ambient_lights@);
        }
        acc
    }

    /// The color at a pixel-plane coordinate, through the camera.
    pub fn get_color_at_pixel(&self, x: u32, y: u32) -> (r: Vec3)
        requires
            self.wf(),
            x <= crate::camera::PLANE_ONE,
            y <= crate::camera::PLANE_ONE,
        ensures
            r == self.spec_color(self.main_camera.spec_ray(x as int, y as int), 0),
            r.bounded(COLOR_MAX as int),
    {
        let ray = self.main_camera.get_ray(x, y);
        self.get_color_from_ray(ray, 0)
    }
}

/// The half vector of two directions, each scaled by the other's length,
/// reduced.
/// The raw (unreduced) half-vector component: each direction scaled by
/// the other's integer length.
pub open spec fn spec_half_raw(a: Vec3, b: Vec3, i: int) -> int {
    let la = crate::vec3::smax(crate::rat::sqrt_floor(crate::vec3::sdot(a, a)), 1);
    let lb = crate::vec3::smax(crate::rat::sqrt_floor(crate::vec3::sdot(b, b)), 1);
    a.saxis(i) * lb + b.saxis(i) * la
}

fn half_vector(a: Vec3, b: Vec3) -> (r: Vec3)
    requires
        a.bounded(0x1000_0000_0000),
        b.bounded(0x1000_0000_0000),
    ensures
        (r.x as int, r.y as int, r.z as int) == crate::hit::sreduce(
            spec_half_raw(a, b, 0),
            spec_half_raw(a, b, 1),
            spec_half_raw(a, b, 2),
            0x1000_0000_0000,
        ),
        r.bounded(0x1000_0000_0000),
{
    let a2 = a.dot(a);
    let b2 = b.dot(b);
    proof {
        assert(a2 >= 0 && b2 >= 0) by (nonlinear_arith)
            requires
                a2 == a.x * a.x + a.y * a.y + a.z * a.z,
                b2 == b.x * b.x + b.y * b.y + b.z * b.z,
        ;
    }
    let la = isqrt_len(a2);
    let lb = isqrt_len(b2);
    proof {
        lemma_mul_bound(a.x as int, lb as int, 0x1000_0000_0000, 0x8000_0000_0000_0000);
        lemma_mul_bound(a.y as int, lb as int, 0x1000_0000_0000, 0x8000_0000_0000_0000);
        lemma_mul_bound(a.z as int, lb as int, 0x1000_0000_0000, 0x8000_0000_0000_0000);
        lemma_mul_bound(b.x as int, la as int, 0x1000_0000_0000, 0x8000_0000_0000_0000);
        lemma_mul_bound(b.y as int, la as int, 0x1000_0000_0000, 0x8000_0000_0000_0000);
        lemma_mul_bound(b.z as int, la as int, 0x1000_0000_0000, 0x8000_0000_0000_0000);
    }
    let hx = (a.x as i128) * lb + (b.x as i128) * la;
    let hy = (a.y as i128) * lb + (b.y as i128) * la;
    let hz = (a.z as i128) * lb + (b.z as i128) * la;
    crate::hit::reduce_dir_to(hx, hy, hz, 0x1000_0000_0000)
}

/// Integer length of a squared magnitude, floored at one.
fn isqrt_len(s2: i128) -> (r: i128)
    requires
        0 <= s2 < 0x4000_0000_0000_0000_0000_0000_0000_0000,
    ensures
        r == crate::vec3::smax(crate::rat::sqrt_floor(s2 as int), 1),
        1 <= r < 0x8000_0000_0000_0000,
{
    let l0 = crate::rat::isqrt(s2);
    if l0 < 1 {
        1
    } else {
        l0
    }
}

/// `a * b / 1000` for a nonnegative pair.
fn mul_div_1000(a: i64, b: i64) -> (r: i64)
    requires
        0 <= a <= 0x1_0000_0000,
        0 <= b <= 1000,
    ensures
        r == (a * b) / 1000,
        0 <= r <= a,
{
    proof {
        lemma_mul_bound(a as int, b as int, 0x1_0000_0000, 1000);
        assert(0 <= a * b <= a * 1000) by (nonlinear_arith)
            requires
                0 <= a,
                0 <= b <= 1000,
        ;
        crate::hit::lemma_div_range(a as int * b, 1000, 0, a as int);
    }
    let q = div_floor((a as i128) * (b as i128), 1000);
    q as i64
}

/// `a * b / 255000`, for a clamped traced channel and a per-mille factor.
fn mul_div_255000(a: i64, b: i64) -> (r: i64)
    requires
        -BOUNCE_CLAMP <= a <= BOUNCE_CLAMP,
        0 <= b <= 1000,
    ensures
        r == (a * b) / 255000,
        -BOUNCE_CLAMP <= r <= BOUNCE_CLAMP,
{
    proof {
        lemma_mul_bound(a as int, b as int, BOUNCE_CLAMP as int, 1000);
        assert(-(BOUNCE_CLAMP as int) * 255000 <= a * b <= BOUNCE_CLAMP as int * 255000)
            by (nonlinear_arith)
            requires
                -(BOUNCE_CLAMP as int) * 1000 <= a * b <= BOUNCE_CLAMP as int * 1000,
        ;
        crate::hit::lemma_div_range(a as int * b, 255000, -(BOUNCE_CLAMP as int), BOUNCE_CLAMP as int);
    }
    let q = div_floor((a as i128) * (b as i128), 255000);
    q as i64
}

/// `a * b * c / 255000`, for a clamped traced channel, a per-mille factor
/// and a color channel.
fn mul3_div_255000(a: i64, b: i64, c: i64) -> (r: i64)
    requires
        -BOUNCE_CLAMP <= a <= BOUNCE_CLAMP,
        0 <= b <= 1000,
        0 <= c <= 255,
    ensures
        r == (a * b * c) / 255000,
        -BOUNCE_CLAMP <= r <= BOUNCE_CLAMP,
{
    proof {
        lemma_mul_bound(a as int, b as int, BOUNCE_CLAMP as int, 1000);
        lemma_mul_bound(a as int * b, c as int, 0x3E8_0000_0000, 255);
        assert(-(BOUNCE_CLAMP as int) * 255000 <= a * b * c <= BOUNCE_CLAMP as int * 255000)
            by (nonlinear_arith)
            requires
                -(BOUNCE_CLAMP as int) * 1000 <= a * b <= BOUNCE_CLAMP as int * 1000,
                0 <= c <= 255,
        ;
        crate::hit::lemma_div_range(
            a as int * b * c,
            255000,
            -(BOUNCE_CLAMP as int),
            BOUNCE_CLAMP as int,
        );
    }
    let q = div_floor((a as i128) * (b as i128) * (c as i128), 255000);
    q as i64
}

/// One combined shading term: `color * (factor * sum + 1000 * extra) / 255000`.
fn hall_term(color: i64, factor: i64, sum: i64, extra: i64) -> (r: i64)
    requires
        0 <= color <= 255,
        0 <= factor <= 1000,
        0 <= sum <= 0x40000,
        -BOUNCE_CLAMP <= extra <= BOUNCE_CLAMP,
    ensures
        r == (color * (factor * sum + 1000 * extra)) / 255000,
        -0x2_0000_0000 <= r <= 0x2_0000_0000,
{
    proof {
        lemma_mul_bound(factor as int, sum as int, 1000, 0x40000);
        lemma_mul_bound(color as int, factor as int * sum + 1000 * (extra as int), 255, 0x3EA_0000_0000);
        assert(-0x2_0000_0000 * 255000 <= color * (factor as int * sum + 1000 * (extra as int))
            <= 0x2_0000_0000 * 255000) by (nonlinear_arith)
            requires
                0 <= color <= 255,
                -0x3EA_0000_0000 <= factor as int * sum + 1000 * (extra as int) <= 0x3EA_0000_0000,
                -(255 as int) * 0x3EA_0000_0000 <= color * (factor as int * sum + 1000 * (
                extra as int)) <= 255 * 0x3EA_0000_0000,
        ;
        crate::hit::lemma_div_range(
            color as int * (factor as int * sum + 1000 * (extra as int)),
            255000,
            -0x2_0000_0000,
            0x2_0000_0000,
        );
    }
    let inner = (factor as i128) * (sum as i128) + 1000 * (extra as i128);
    let q = div_floor((color as i128) * inner, 255000);
    q as i64
}

/// The Phong combination channel: `albedo * inner / 255000`.
fn scale_channel(albedo: i64, inner: i64) -> (r: i64)
    requires
        0 <= albedo <= 255,
        -0x1_0000_0000 <= inner <= 0x1_0000_0000,
    ensures
        r == (albedo * inner) / 255000,
        -0x1_0000_0000 <= r <= 0x1_0000_0000,
{
    proof {
        lemma_mul_bound(albedo as int, inner as int, 255, 0x1_0000_0000);
        assert(-0x1_0000_0000 * 255000 <= albedo * inner <= 0x1_0000_0000 * 255000)
            by (nonlinear_arith)
            requires
                -255 * 0x1_0000_0000 <= albedo * inner <= 255 * 0x1_0000_0000,
        ;
        crate::hit::lemma_div_range(albedo as int * inner, 255000, -0x1_0000_0000, 0x1_0000_0000);
    }
    let q = div_floor((albedo as i128) * (inner as i128), 255000);
    q as i64
}

/// Wide-input mirror direction: the reflection helper for light
/// directions, which can be longer than a ray direction.
fn reflect_dir_wide(d: Vec3, n: Vec3) -> (r: Vec3)
    requires
        d.bounded(0x1000_0000_0000),
        n.bounded(crate::vec3::NORMAL_MAX as int),
    ensures
        (r.x as int, r.y as int, r.z as int) == crate::hit::sreduce(
            crate::shading::reflect_scaled(d, n, 0),
            crate::shading::reflect_scaled(d, n, 1),
            crate::shading::reflect_scaled(d, n, 2),
            0x1000_0000_0000,
        ),
        r.bounded(0x1000_0000_0000),
{
    let nd = n.dot(d);
    let ndi: i128 = if -nd > 0 {
        -nd
    } else {
        0
    };
    let nn = n.dot(n);
    proof {
        lemma_mul_bound(n.x as int, d.x as int, crate::vec3::NORMAL_MAX as int, 0x1000_0000_0000);
        lemma_mul_bound(n.y as int, d.y as int, crate::vec3::NORMAL_MAX as int, 0x1000_0000_0000);
        lemma_mul_bound(n.z as int, d.z as int, crate::vec3::NORMAL_MAX as int, 0x1000_0000_0000);
        lemma_mul_bound(n.x as int, n.x as int, crate::vec3::NORMAL_MAX as int, crate::vec3::NORMAL_MAX as int);
        lemma_mul_bound(n.y as int, n.y as int, crate::vec3::NORMAL_MAX as int, crate::vec3::NORMAL_MAX as int);
        lemma_mul_bound(n.z as int, n.z as int, crate::vec3::NORMAL_MAX as int, crate::vec3::NORMAL_MAX as int);
    }
    let tn = 2 * ndi;
    proof {
        lemma_mul_bound(tn as int, n.x as int, 0x1800_0000_0000_0000_0000, crate::vec3::NORMAL_MAX as int);
        lemma_mul_bound(tn as int, n.y as int, 0x1800_0000_0000_0000_0000, crate::vec3::NORMAL_MAX as int);
        lemma_mul_bound(tn as int, n.z as int, 0x1800_0000_0000_0000_0000, crate::vec3::NORMAL_MAX as int);
        lemma_mul_bound(nn as int, -(d.x as int), 0x3000_0000_0000_0000, 0x1000_0000_0000);
        lemma_mul_bound(nn as int, -(d.y as int), 0x3000_0000_0000_0000, 0x1000_0000_0000);
        lemma_mul_bound(nn as int, -(d.z as int), 0x3000_0000_0000_0000, 0x1000_0000_0000);
    }
    let rx = tn * (n.x as i128) - nn * (-(d.x as i128));
    let ry = tn * (n.y as i128) - nn * (-(d.y as i128));
    let rz = tn * (n.z as i128) - nn * (-(d.z as i128));
    crate::hit::reduce_dir_to(rx, ry, rz, 0x1000_0000_0000)
}

/// Offset a grid point one unit along the sign of a direction, the
/// self-intersection guard of secondary and shadow rays; reports whether
/// the result still lies on the origin grid.
/// Spec form of the one-unit offset along a direction's signs: the
/// offset point, and whether it stays on the origin grid.
pub open spec fn spec_sign_offset(p: Vec3, n: Vec3) -> (bool, Vec3) {
    let q = crate::vec3::vec_of3(
        (p.x + sign_of(n.x as int), p.y + sign_of(n.y as int), p.z + sign_of(n.z as int)),
    );
    (q.bounded(ORIGIN_MAX as int), q)
}

fn sign_offset(p: Vec3, n: Vec3) -> (r: (bool, Vec3))
    requires
        p.bounded(POINT_MAX as int),
    ensures
        r == spec_sign_offset(p, n),
        r.0 ==> r.1.bounded(ORIGIN_MAX as int),
{
    let q = Vec3 {
        x: p.x + sign64(n.x),
        y: p.y + sign64(n.y),
        z: p.z + sign64(n.z),
    };
    let ok = -ORIGIN_MAX <= q.x && q.x <= ORIGIN_MAX && -ORIGIN_MAX <= q.y && q.y <= ORIGIN_MAX
        && -ORIGIN_MAX <= q.z && q.z <= ORIGIN_MAX;
    (ok, q)
}

/// As `sign_offset`, along a transmitted direction.
fn sign_offset_dir(p: Vec3, d: Vec3) -> (r: (bool, Vec3))
    requires
        p.bounded(POINT_MAX as int),
    ensures
        r == spec_sign_offset(p, d),
        r.0 ==> r.1.bounded(ORIGIN_MAX as int),
{
    sign_offset(p, d)
}

/// The sign of a component.
pub open spec fn sign_of(v: int) -> int {
    if v > 0 {
        1
    } else if v < 0 {
        -1
    } else {
        0
    }
}

fn sign64(v: i64) -> (r: i64)
    ensures
        r == sign_of(v as int),
{
    if v > 0 {
        1
    } else if v < 0 {
        -1
    } else {
        0
    }
}

} // verus!
