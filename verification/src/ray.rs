//! Rays on the integer grid.

use vstd::prelude::*;
use crate::rat::Tval;
use crate::vec3::Vec3;

verus! {

/// Largest magnitude of a ray origin component: scene coordinates plus a
/// small margin for the offset of secondary rays.
pub const ORIGIN_MAX: i64 = 8192;

/// A ray: where it starts and where it is going.  The direction need not be
/// normalised; the parameter `t` is measured in direction lengths.
#[derive(Clone, Copy, Debug, PartialEq, Eq, Structural)]
pub struct Ray {
    pub origin: Vec3,
    pub direction: Vec3,
}

impl Ray {
    pub open spec fn wf(self) -> bool {
        &&& self.origin.bounded(ORIGIN_MAX as int)
        &&& self.direction.bounded(crate::vec3::DIR_MAX as int)
    }

    pub fn new(orig: Vec3, dir: Vec3) -> (r: Ray)
        ensures
            r.origin == orig,
            r.direction == dir,
    {
        Ray { origin: orig, direction: dir }
    }

    /// The point of the ray at rational parameter `t`, scaled by `t.den`,
    /// on the given axis: `origin * den + num * direction`.
    pub open spec fn at_scaled(self, t: Tval, a: int) -> int {
        self.origin.saxis(a) * t.den + t.num * self.direction.saxis(a)
    }
}

} // verus!
