//! An offline ray-traced renderer, verified over an exact integer world.
//!
//! Geometry lives on an integer coordinate grid and every ray parameter is an
//! exact rational, so each intersection routine, the bounding-volume
//! hierarchy, the shading recursion and the adaptive sampler can be given
//! exact contracts.  The floating-point conveniences of a conventional
//! renderer (scene setup from real units, perspective from a field of view,
//! image encoding) stay outside the library and hand it plain integers.

pub mod bounding_volume;
pub mod bvh;
pub mod camera;
pub mod hit;
pub mod laws;
pub mod lights;
pub mod materials;
pub mod plane;
pub mod primitive;
pub mod rat;
pub mod render;
pub mod ray;
pub mod scene;
pub mod shading;
pub mod sphere;
pub mod triangle;
pub mod triangle_mesh;
pub mod vec3;

pub use bounding_volume::BoundingVolume;
pub use bvh::BvhNode;
pub use camera::Camera;
pub use scene::Scene;
pub use hit::HitData;
pub use lights::AmbientLight;
pub use lights::Light;
pub use lights::PointLight;
pub use materials::Flat;
pub use materials::Hall;
pub use materials::Material;
pub use materials::Phong;
pub use plane::Plane;
pub use primitive::HittableList;
pub use primitive::Primitive;
pub use rat::Tval;
pub use ray::Ray;
pub use sphere::Sphere;
pub use triangle::Triangle;
pub use triangle_mesh::SceneObject;
pub use triangle_mesh::TriangleMesh;
pub use vec3::Vec3;
