//! The acceleration tree against the brute-force scan, and the scene's
//! color resolution.

use raytracer::BvhNode;
use raytracer::Camera;
use raytracer::Flat;
use raytracer::HittableList;
use raytracer::Light;
use raytracer::Material;
use raytracer::PointLight;
use raytracer::Primitive;
use raytracer::Ray;
use raytracer::Scene;
use raytracer::SceneObject;
use raytracer::Sphere;
use raytracer::Triangle;
use raytracer::Tval;
use raytracer::Vec3;

fn grey() -> Material {
    Material::Flat(Flat::new(Vec3::new(128, 128, 128)))
}

fn t0() -> Tval {
    Tval::new(0, 1)
}

fn far() -> Tval {
    Tval::new(100000, 1)
}

fn cluttered_list() -> HittableList {
    let mut list = HittableList::new();
    let centers = [
        (0i64, 0i64, -800i64),
        (300, 100, -1200),
        (-300, -100, -700),
        (50, -50, -1500),
        (0, 200, -900),
        (-150, 150, -1100),
    ];
    for (x, y, z) in centers {
        let mut s = Sphere::new(120, grey());
        s.translate(Vec3::new(x, y, z));
        list.push(Primitive::Sphere(s));
    }
    let v0 = Vec3::new(-400, -400, -1000);
    let v1 = Vec3::new(400, -400, -1000);
    let v2 = Vec3::new(0, 400, -1300);
    let n = Vec3::new(0, 0, 1000);
    list.push(Primitive::Triangle(Triangle::new(n, (n, n, n), (v0, v1, v2), grey(), false)));
    list
}

/// The traversal reports the same outcome and the same exact rational
/// distance as the brute-force scan, over many rays.
#[test]
fn traversal_matches_brute_force() {
    let list = cluttered_list();
    let tree = BvhNode::from(cluttered_list(), 0, 2);
    for ix in -6i64..=6 {
        for iy in -6i64..=6 {
            let ray = Ray::new(Vec3::new(0, 0, 0), Vec3::new(ix * 50, iy * 50, -800));
            let hb = list.hit(ray, t0(), far());
            let ht = tree.hit(ray, t0(), far());
            assert_eq!(hb.did_hit, ht.did_hit);
            if hb.did_hit {
                // Equal as rationals: cross-multiply.
                assert_eq!(hb.t.num * ht.t.den, ht.t.num * hb.t.den);
            }
        }
    }
}

fn check_coverage(node: &BvhNode) {
    match node {
        BvhNode::Leaf { volume, objects } => {
            for i in 0..objects.len() {
                let bv = objects.get(i).get_bounding_vol();
                assert!(volume.min.x <= bv.min.x && bv.max.x <= volume.max.x);
                assert!(volume.min.y <= bv.min.y && bv.max.y <= volume.max.y);
                assert!(volume.min.z <= bv.min.z && bv.max.z <= volume.max.z);
            }
        }
        BvhNode::Node { volume, left, right } => {
            for child in [left, right] {
                let cv = child.get_volume();
                assert!(volume.min.x <= cv.min.x && cv.max.x <= volume.max.x);
                assert!(volume.min.y <= cv.min.y && cv.max.y <= volume.max.y);
                assert!(volume.min.z <= cv.min.z && cv.max.z <= volume.max.z);
            }
            check_coverage(left);
            check_coverage(right);
        }
    }
}

/// Every constructed node's volume contains its children's volumes (or
/// its objects' boxes): the coverage invariant, checked structurally.
#[test]
fn tree_coverage_invariant() {
    let tree = BvhNode::from(cluttered_list(), 0, 2);
    check_coverage(&tree);
}

fn test_camera() -> Camera {
    Camera::new(
        Vec3::new(0, 0, 0),
        Vec3::new(0, 0, -4),
        Vec3::new(4, 0, 0),
        Vec3::new(0, 4, 0),
    )
}

fn empty_scene(background: Vec3) -> Scene {
    Scene::new(
        (64, 64),
        Tval::new(100000, 1),
        background,
        test_camera(),
        0,
        5,
        1000,
        true,
    )
}

/// An empty scene returns exactly the configured background color, for
/// every ray tried.
#[test]
fn empty_scene_background() {
    let bg = Vec3::new(255, 229, 204);
    let scene = empty_scene(bg);
    for ix in -3i64..=3 {
        for iy in -3i64..=3 {
            let ray = Ray::new(Vec3::new(0, 0, 0), Vec3::new(ix * 100, iy * 100, -500));
            assert_eq!(scene.get_color_from_ray(ray, 0), bg);
        }
    }
}

/// The single-sphere scenario through the image center: a hit at four
/// direction lengths with a `+z` facing normal, and a non-background
/// color.
#[test]
fn single_sphere_center_scenario() {
    let bg = Vec3::new(9, 9, 9);
    let mut scene = empty_scene(bg);
    let mut s = Sphere::new(512, grey());
    s.translate(Vec3::new(0, 0, -2560));
    scene.push_object(SceneObject::Sphere(s));
    let ray = Ray::new(Vec3::new(0, 0, 0), Vec3::new(0, 0, -512));
    let c = scene.get_color_from_ray(ray, 0);
    // Flat shading with no lights returns the albedo.
    assert_eq!(c, Vec3::new(128, 128, 128));
}

/// A fully opaque occluder between a lit surface point and the single
/// light darkens that point by exactly three tenths of the unoccluded
/// base color.
#[test]
fn shadow_darkens_by_three_tenths() {
    let bg = Vec3::new(0, 0, 0);
    let build = |with_occluder: bool| -> Scene {
        let mut scene = empty_scene(bg);
        let mut surface = Sphere::new(100, grey());
        surface.translate(Vec3::new(0, 0, -1000));
        scene.push_object(SceneObject::Sphere(surface));
        if with_occluder {
            let mut blocker = Sphere::new(100, grey());
            blocker.translate(Vec3::new(450, 0, -850));
            scene.push_object(SceneObject::Sphere(blocker));
        }
        let mut light = Light::PointLight(PointLight::new(Vec3::new(255, 255, 255), 1000));
        light.set_position(Vec3::new(900, 0, -800));
        scene.push_light(light);
        scene
    };
    let ray = Ray::new(Vec3::new(0, 0, 0), Vec3::new(0, 0, -1));
    let unoccluded = build(false).get_color_from_ray(ray, 0);
    let occluded = build(true).get_color_from_ray(ray, 0);
    let expected = raytracer::shading::apply_shadow(unoccluded, unoccluded);
    assert_eq!(occluded, expected);
    assert_ne!(occluded, unoccluded);
}

/// Flat shading sums the attenuated light colors over the albedo:
/// exact formula at an exact distance.
#[test]
fn flat_shading_attenuation() {
    let bg = Vec3::new(0, 0, 0);
    let mut scene = empty_scene(bg);
    let mut light = Light::PointLight(PointLight::new(Vec3::new(200, 100, 50), 1000));
    // 100 units above the hit point (0, 0, -900): squared distance 10000.
    light.set_position(Vec3::new(0, 100, -900));
    scene.push_light(light);
    let f = Flat::new(Vec3::new(10, 20, 30));
    let p = Vec3::new(0, 0, -900);
    let c = scene.shade_flat(f, p);
    // channel = albedo + color * 1000 / (1000 * 10000) = albedo + color/10000.
    assert_eq!(c, Vec3::new(10, 20, 30));
    // A much closer light contributes visibly: distance squared 4.
    let mut near_scene = empty_scene(bg);
    let mut near_light = Light::PointLight(PointLight::new(Vec3::new(200, 100, 50), 1000));
    near_light.set_position(Vec3::new(0, 2, -900));
    near_scene.push_light(near_light);
    let c2 = near_scene.shade_flat(f, p);
    assert_eq!(c2, Vec3::new(10 + 50, 20 + 25, 30 + 12));
}

/// With acceleration enabled the scene resolves the same colors as the
/// linear scan.
#[test]
fn accelerated_scene_matches_plain() {
    let bg = Vec3::new(40, 50, 60);
    let mut plain = empty_scene(bg);
    let mut accel = Scene::new(
        (64, 64),
        Tval::new(100000, 1),
        bg,
        test_camera(),
        2,
        5,
        1000,
        true,
    );
    let centers = [(0i64, 0i64, -800i64), (300, 100, -1200), (-300, -100, -700)];
    for (x, y, z) in centers {
        let mut s = Sphere::new(120, grey());
        s.translate(Vec3::new(x, y, z));
        plain.push_object(SceneObject::Sphere(s));
        let mut s2 = Sphere::new(120, grey());
        s2.translate(Vec3::new(x, y, z));
        accel.push_object(SceneObject::Sphere(s2));
    }
    accel.build_acceleration();
    for ix in -3i64..=3 {
        let ray = Ray::new(Vec3::new(0, 0, 0), Vec3::new(ix * 100, 0, -800));
        assert_eq!(plain.get_color_from_ray(ray, 0), accel.get_color_from_ray(ray, 0));
    }
}
