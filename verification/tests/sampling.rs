//! The sample cache, the adaptive sampler, refraction, and meshes.

use std::collections::HashMap;
use raytracer::Camera;
use raytracer::Flat;
use raytracer::Material;
use raytracer::Ray;
use raytracer::Scene;
use raytracer::SceneObject;
use raytracer::Sphere;
use raytracer::TriangleMesh;
use raytracer::Tval;
use raytracer::Vec3;
use raytracer::render::percent_diff;
use raytracer::shading::apply_shadow;
use raytracer::shading::refract_dir;

fn test_camera() -> Camera {
    Camera::new(
        Vec3::new(0, 0, 0),
        Vec3::new(0, 0, -4),
        Vec3::new(4, 0, 0),
        Vec3::new(0, 4, 0),
    )
}

fn empty_scene(background: Vec3) -> Scene {
    Scene::new(
        (16, 16),
        Tval::new(100000, 1),
        background,
        test_camera(),
        0,
        5,
        1000,
        true,
    )
}

/// Querying the identical pixel-plane coordinate twice within one frame
/// casts exactly one ray and takes at least one cache hit.
#[test]
fn cache_hit_on_repeat_query() {
    let scene = empty_scene(Vec3::new(7, 8, 9));
    let mut cache: HashMap<u64, Vec3> = HashMap::new();
    let (c1, rays1, hits1) = scene.sample_point(&mut cache, 1000, 2000);
    assert_eq!(rays1, 1);
    assert_eq!(hits1, 0);
    let (c2, rays2, hits2) = scene.sample_point(&mut cache, 1000, 2000);
    assert_eq!(rays2, 0);
    assert_eq!(hits2, 1);
    assert_eq!(c1, c2);
    // A different coordinate still costs a ray.
    let (_c3, rays3, hits3) = scene.sample_point(&mut cache, 1001, 2000);
    assert_eq!(rays3, 1);
    assert_eq!(hits3, 0);
}

/// On a perfectly uniform cell (an empty scene is uniform background)
/// the adaptive sampler takes exactly four samples: no subdivision.
#[test]
fn uniform_cell_takes_four_samples() {
    let scene = empty_scene(Vec3::new(100, 150, 200));
    let mut cache: HashMap<u64, Vec3> = HashMap::new();
    let (rays, hits, color) = scene.supersample_recurse(
        &mut cache,
        (1000, 5000),
        128,
        0,
        2,
        0,
    );
    assert_eq!(rays + hits, 4);
    assert_eq!(rays, 4);
    assert_eq!(color, Vec3::new(100, 150, 200));
}

/// Equal colors measure a zero percent difference; unequal ones do not.
#[test]
fn percent_diff_values() {
    let a = Vec3::new(100, 150, 200);
    assert_eq!(percent_diff(a, a), 0);
    let b = Vec3::new(300, 150, 200);
    // Channel x: 2000*200/400 == 1000; averaged over three: 333.
    assert_eq!(percent_diff(a, b), 333);
}

/// The fixed shadow attenuation: exactly three tenths of the base,
/// rounded down, without clamping at zero.
#[test]
fn shadow_step_formula() {
    let c = Vec3::new(100, 10, 0);
    let r = apply_shadow(c, c);
    assert_eq!(r, Vec3::new(70, 7, 0));
    // Repeated occluders subtract cumulatively and may go negative.
    let r2 = apply_shadow(apply_shadow(Vec3::new(10, 10, 10), c), c);
    assert_eq!(r2, Vec3::new(-50, 4, 10));
}

/// Normal-incidence refraction with equal indices does not bend the
/// ray: the transmitted direction is the incident direction.
#[test]
fn refraction_normal_incidence() {
    let d = Vec3::new(0, 0, -512);
    let n = Vec3::new(0, 0, 512);
    let (t, tir) = refract_dir(d, n, 1000, 1000);
    assert!(!tir);
    assert_eq!(t.x, 0);
    assert_eq!(t.y, 0);
    assert!(t.z < 0);
    // Scaled back down, the direction is the incident one.
    assert_eq!(t.x * d.z, t.z * d.x);
    assert_eq!(t.y * d.z, t.z * d.y);
}

/// A dense medium bends an oblique ray; a shallow enough ray into a
/// much thinner medium reflects totally internally.
#[test]
fn refraction_oblique() {
    let n = Vec3::new(0, 0, 512);
    let oblique = Vec3::new(300, 0, -400);
    let (_t, tir) = refract_dir(oblique, n, 1000, 1500);
    assert!(!tir);
    let shallow = Vec3::new(500, 0, -100);
    let (_t2, tir2) = refract_dir(shallow, n, 1500, 500);
    assert!(tir2);
}

/// Mesh construction: one triangle per face, exact vertices, and a
/// unit-scaled face direction.
#[test]
fn mesh_construction() {
    let vertices = vec![
        Vec3::new(0, 0, -1000),
        Vec3::new(1000, 0, -1000),
        Vec3::new(0, 1000, -1000),
        Vec3::new(1000, 1000, -1000),
    ];
    let faces = vec![(1usize, 2usize, 3usize), (2, 4, 3)];
    let mesh = TriangleMesh::new(vertices, faces, false);
    assert_eq!(mesh.triangles.len(), 2);
    let t = &mesh.triangles[0];
    assert_eq!(t.v0, Vec3::new(0, 0, -1000));
    assert_eq!(t.v1, Vec3::new(1000, 0, -1000));
    assert_eq!(t.v2, Vec3::new(0, 1000, -1000));
    // Face direction +z, scaled to length 2^20.
    assert_eq!(t.surface_normal, Vec3::new(0, 0, 1 << 20));
    // The decomposed mesh is its triangles.
    let prims = mesh.decompose();
    assert_eq!(prims.len(), 2);
}

/// A mesh in a scene renders through its triangles.
#[test]
fn mesh_in_scene() {
    let bg = Vec3::new(1, 2, 3);
    let mut scene = empty_scene(bg);
    let vertices = vec![
        Vec3::new(-1000, -1000, -2000),
        Vec3::new(1000, -1000, -2000),
        Vec3::new(0, 1000, -2000),
    ];
    let faces = vec![(1usize, 2usize, 3usize)];
    let mut mesh = TriangleMesh::new(vertices, faces, false);
    mesh.set_material(Material::Flat(Flat::new(Vec3::new(50, 60, 70))));
    scene.push_object(SceneObject::Mesh(mesh));
    let hit_ray = Ray::new(Vec3::new(0, 0, 0), Vec3::new(0, 0, -1));
    assert_eq!(scene.get_color_from_ray(hit_ray, 0), Vec3::new(50, 60, 70));
    let miss_ray = Ray::new(Vec3::new(0, 0, 0), Vec3::new(0, 0, 1));
    assert_eq!(scene.get_color_from_ray(miss_ray, 0), bg);
}

/// A rendered frame has one color per pixel.
#[test]
fn frame_dimensions() {
    let mut scene = empty_scene(Vec3::new(5, 6, 7));
    let mut s = Sphere::new(300, Material::Flat(Flat::new(Vec3::new(200, 0, 0))));
    s.translate(Vec3::new(0, 0, -1500));
    scene.push_object(SceneObject::Sphere(s));
    let frame = scene.render_frame();
    assert_eq!(frame.len(), 16 * 16);
    // The center of the image sees the sphere, the corner the background.
    assert_eq!(frame[0], Vec3::new(5, 6, 7));
    assert_eq!(frame[8 * 16 + 8], Vec3::new(200, 0, 0));
}

/// The supersampled frame and its heatmap share the pixel count, and a
/// uniform image needs no more than the corner samples.
#[test]
fn supersample_frame_dimensions() {
    let mut scene = empty_scene(Vec3::new(9, 9, 9));
    let (frame, heat) = scene.render_supersample_frame(50);
    assert_eq!(frame.len(), 16 * 16);
    assert_eq!(heat.len(), 16 * 16);
    assert_eq!(frame[0], Vec3::new(9, 9, 9));
    // Every sampled corner of a uniform image agrees, so no pixel takes
    // more than its four corner samples.
    for h in heat {
        assert!(h.x <= 4);
    }
}

/// A reflective Hall surface picks up color from a second sphere that
/// the camera cannot see directly.
#[test]
fn reflection_changes_color() {
    let bg = Vec3::new(0, 0, 0);
    let build = |reflect: i64| -> Scene {
        let mut scene = empty_scene(bg);
        let mirror = Material::Hall(raytracer::Hall::new(
            Vec3::new(10, 10, 10),
            Vec3::new(255, 255, 255),
            Vec3::new(255, 255, 255),
            100,
            100,
            reflect,
            0,
            1000,
            4,
            0,
        ));
        let mut front = Sphere::new(400, mirror);
        front.translate(Vec3::new(0, 0, -1200));
        scene.push_object(SceneObject::Sphere(front));
        // A bright sphere behind the camera, visible only by reflection.
        let mut behind = Sphere::new(800, Material::Flat(Flat::new(Vec3::new(255, 255, 255))));
        behind.translate(Vec3::new(0, 0, 2000));
        scene.push_object(SceneObject::Sphere(behind));
        scene
    };
    let ray = Ray::new(Vec3::new(0, 0, 0), Vec3::new(0, 0, -1));
    let dull = build(0).get_color_from_ray(ray, 0);
    let shiny = build(1000).get_color_from_ray(ray, 0);
    assert_ne!(dull, shiny);
}

/// A sharp edge in the image forces the adaptive sampler to subdivide:
/// more than four samples are taken.
#[test]
fn edge_cell_subdivides() {
    let bg = Vec3::new(0, 0, 0);
    let mut scene = empty_scene(bg);
    let mut s = Sphere::new(400, Material::Flat(Flat::new(Vec3::new(255, 255, 255))));
    s.translate(Vec3::new(0, 0, -1200));
    scene.push_object(SceneObject::Sphere(s));
    let mut cache: HashMap<u64, Vec3> = HashMap::new();
    // A cell straddling the silhouette of the sphere.
    let (rays, hits, _color) = scene.supersample_recurse(
        &mut cache,
        (53000, 32768),
        4096,
        0,
        2,
        100,
    );
    assert!(rays + hits > 4);
}

/// The recursion depth cap stops reflective bouncing: with depth at the
/// cap, two facing mirrors still terminate.
#[test]
fn recursion_depth_terminates() {
    let bg = Vec3::new(3, 3, 3);
    let mut scene = empty_scene(bg);
    let mirror = Material::Hall(raytracer::Hall::new(
        Vec3::new(0, 0, 0),
        Vec3::new(255, 255, 255),
        Vec3::new(255, 255, 255),
        0,
        0,
        1000,
        0,
        1000,
        1,
        0,
    ));
    let mut a = Sphere::new(400, mirror);
    a.translate(Vec3::new(0, 0, -1200));
    scene.push_object(SceneObject::Sphere(a));
    let mut b = Sphere::new(400, mirror);
    b.translate(Vec3::new(0, 0, 1200));
    scene.push_object(SceneObject::Sphere(b));
    let ray = Ray::new(Vec3::new(0, 0, 0), Vec3::new(0, 0, -1));
    // Terminates (the depth counter is explicit), whatever the color.
    let _ = scene.get_color_from_ray(ray, 0);
}

/// Box downsampling: exact block averages, and the empty result exactly
/// when the sample count is not a usable square.
#[test]
fn downsample_blocks() {
    // A 4x2 image downsampled 2x: two blocks.
    let pixels = vec![
        Vec3::new(10, 0, 0),
        Vec3::new(20, 0, 0),
        Vec3::new(100, 4, 0),
        Vec3::new(101, 4, 0),
        Vec3::new(30, 0, 0),
        Vec3::new(40, 0, 0),
        Vec3::new(102, 4, 0),
        Vec3::new(105, 4, 0),
    ];
    let out = raytracer::render::supersample(&pixels, (4, 2), 4);
    assert_eq!(out.len(), 2);
    assert_eq!(out[0], Vec3::new(25, 0, 0));
    // (100 + 101 + 102 + 105) / 4 == 102, rounded down.
    assert_eq!(out[1], Vec3::new(102, 4, 0));
    // Not a perfect square: empty.
    assert_eq!(raytracer::render::supersample(&pixels, (4, 2), 3).len(), 0);
    // Square but not dividing the resolution: empty.
    let nine = vec![Vec3::new(0, 0, 0); 8];
    assert_eq!(raytracer::render::supersample(&nine, (4, 2), 9).len(), 0);
}
