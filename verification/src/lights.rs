//! Light sources.

use vstd::prelude::*;
use crate::materials::FACTOR_ONE;
use crate::materials::color_wf;
use crate::vec3::COORD_MAX;
use crate::vec3::Vec3;

verus! {

/// A light that emits into all directions from one point.  Intensity is in
/// thousandths: 1000 is 1.0.
#[derive(Clone, Copy, Debug, PartialEq, Eq, Structural)]
pub struct PointLight {
    pub color: Vec3,
    pub position: Vec3,
    pub intensity: i64,
}

impl PointLight {
    pub open spec fn wf(self) -> bool {
        &&& color_wf(self.color)
        &&& self.position.bounded(COORD_MAX as int)
        &&& 0 <= self.intensity <= FACTOR_ONE
    }

    pub fn new(color: Vec3, intensity: i64) -> (r: PointLight)
        ensures
            r == (PointLight { color, position: Vec3 { x: 0i64, y: 0i64, z: 0i64 }, intensity }),
    {
        PointLight { color, position: Vec3 { x: 0, y: 0, z: 0 }, intensity }
    }

    pub fn set_position(&mut self, position: Vec3)
        ensures
            *final(self) == (PointLight { position, ..*old(self) }),
    {
        self.position = position;
    }

    pub fn set_color(&mut self, color: Vec3)
        ensures
            *final(self) == (PointLight { color, ..*old(self) }),
    {
        self.color = color;
    }
}

#[derive(Clone, Copy, Debug, PartialEq, Eq, Structural)]
pub enum Light {
    PointLight(PointLight),
}

impl Light {
    pub open spec fn wf(self) -> bool {
        match self {
            Light::PointLight(l) => l.wf(),
        }
    }

    pub open spec fn spec_position(self) -> Vec3 {
        match self {
            Light::PointLight(l) => l.position,
        }
    }

    pub fn get_position(self) -> (r: Vec3)
        ensures
            r == self.spec_position(),
    {
        match self {
            Light::PointLight(l) => l.position,
        }
    }

    /// The same light moved to `p`.
    pub open spec fn swith_position(self, p: Vec3) -> Light {
        match self {
            Light::PointLight(l) => Light::PointLight(PointLight { position: p, ..l }),
        }
    }

    pub fn set_position(&mut self, position: Vec3)
        ensures
            *final(self) == old(self).swith_position(position),
    {
        match self {
            Light::PointLight(l) => l.set_position(position),
        }
    }
}

/// Sourceless background illumination, one intensity per channel.
#[derive(Clone, Copy, Debug, PartialEq, Eq, Structural)]
pub struct AmbientLight {
    pub intensity: Vec3,
}

impl AmbientLight {
    pub open spec fn wf(self) -> bool {
        color_wf(self.intensity)
    }
}

} // verus!
