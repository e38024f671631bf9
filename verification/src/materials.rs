//! Material variants.
//!
//! Colors are integer triples on a 0..=255 channel scale; the dimensionless
//! coefficients of the shading models (diffuse, specular, reflective,
//! transmissive, ambient weights and the refractive index) are carried in
//! thousandths, so every shading formula is exact integer arithmetic.  The
//! shading itself lives in the scene module, because two of the models ask
//! the scene for the color of secondary rays.

use vstd::prelude::*;
use crate::vec3::Vec3;

verus! {

/// Scale of the dimensionless material coefficients: 1000 is 1.0.
pub const FACTOR_ONE: i64 = 1000;

/// A color channel triple is well formed when each channel lies in 0..=255.
pub open spec fn color_wf(c: Vec3) -> bool {
    &&& 0 <= c.x <= 255
    &&& 0 <= c.y <= 255
    &&& 0 <= c.z <= 255
}

/// A coefficient in thousandths lies in 0..=1000.
pub open spec fn factor_wf(f: i64) -> bool {
    0 <= f <= FACTOR_ONE
}

/// A fixed-color material: no angle dependence.
#[derive(Clone, Copy, Debug, PartialEq, Eq, Structural)]
pub struct Flat {
    pub albedo: Vec3,
}

impl Flat {
    pub open spec fn wf(self) -> bool {
        color_wf(self.albedo)
    }

    pub fn new(albedo: Vec3) -> (r: Flat)
        ensures
            r == (Flat { albedo }),
    {
        Flat { albedo }
    }
}

/// The Phong local illumination model: diffuse plus mirror-reflection
/// specular terms, no recursion.
#[derive(Clone, Copy, Debug, PartialEq, Eq, Structural)]
pub struct Phong {
    pub albedo: Vec3,
    pub diffuse_factor: i64,
    pub specular_factor: i64,
    pub shine_factor: u32,
    pub reflect_factor: i64,
    pub ambient_factor: i64,
}

impl Phong {
    pub open spec fn wf(self) -> bool {
        &&& color_wf(self.albedo)
        &&& factor_wf(self.diffuse_factor)
        &&& factor_wf(self.specular_factor)
        &&& factor_wf(self.reflect_factor)
        &&& factor_wf(self.ambient_factor)
    }

    pub fn new(
        albedo: Vec3,
        diffuse_factor: i64,
        specular_factor: i64,
        shine_factor: u32,
        reflect_factor: i64,
        ambient_factor: i64,
    ) -> (r: Phong)
        ensures
            r == (Phong {
                albedo,
                diffuse_factor,
                specular_factor,
                shine_factor,
                reflect_factor,
                ambient_factor,
            }),
    {
        Phong { albedo, diffuse_factor, specular_factor, shine_factor, reflect_factor, ambient_factor }
    }
}

/// The Hall (Whitted-style) model: half-vector specular, ambient term, and
/// recursive reflection and refraction rays.
#[derive(Clone, Copy, Debug, PartialEq, Eq, Structural)]
pub struct Hall {
    pub d_color: Vec3,
    pub s_color: Vec3,
    pub t_color: Vec3,
    pub diffuse_factor: i64,
    pub specular_factor: i64,
    pub reflect_factor: i64,
    pub transmissive_factor: i64,
    /// Refractive index in thousandths: 1000 is vacuum.
    pub refractive_index: i64,
    pub shine_factor: u32,
    pub ambient_factor: i64,
}

impl Hall {
    pub open spec fn wf(self) -> bool {
        &&& color_wf(self.d_color)
        &&& color_wf(self.s_color)
        &&& color_wf(self.t_color)
        &&& factor_wf(self.diffuse_factor)
        &&& factor_wf(self.specular_factor)
        &&& factor_wf(self.reflect_factor)
        &&& factor_wf(self.transmissive_factor)
        &&& 1 <= self.refractive_index <= 10000
        &&& factor_wf(self.ambient_factor)
    }

    pub fn new(
        d_color: Vec3,
        s_color: Vec3,
        t_color: Vec3,
        diffuse_factor: i64,
        specular_factor: i64,
        reflect_factor: i64,
        transmissive_factor: i64,
        refractive_index: i64,
        shine_factor: u32,
        ambient_factor: i64,
    ) -> (r: Hall)
        ensures
            r == (Hall {
                d_color,
                s_color,
                t_color,
                diffuse_factor,
                specular_factor,
                reflect_factor,
                transmissive_factor,
                refractive_index,
                shine_factor,
                ambient_factor,
            }),
    {
        Hall {
            d_color,
            s_color,
            t_color,
            diffuse_factor,
            specular_factor,
            reflect_factor,
            transmissive_factor,
            refractive_index,
            shine_factor,
            ambient_factor,
        }
    }
}

#[derive(Clone, Copy, Debug, PartialEq, Eq, Structural)]
pub enum Material {
    Flat(Flat),
    Phong(Phong),
    Hall(Hall),
}

impl Material {
    pub open spec fn wf(self) -> bool {
        match self {
            Material::Flat(m) => m.wf(),
            Material::Phong(m) => m.wf(),
            Material::Hall(m) => m.wf(),
        }
    }

    /// The default grey surface of freshly built geometry.
    pub fn default_grey() -> (r: Material)
        ensures
            r == Material::Flat(Flat { albedo: Vec3 { x: 128i64, y: 128i64, z: 128i64 } }),
            r.wf(),
    {
        Material::Flat(Flat { albedo: Vec3 { x: 128, y: 128, z: 128 } })
    }
}

} // verus!
