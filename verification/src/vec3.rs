//! Exact integer 3-vectors.
//!
//! All geometry in this crate lives on an integer grid: positions, box
//! corners and surface normals are `i64` triples, and every arithmetic
//! operation has an exact contract.  Wide intermediates (dot products,
//! determinants) are returned as `i128`, which the stated bounds keep free
//! of overflow.

use vstd::prelude::*;

verus! {

/// Largest magnitude allowed for a scene coordinate (positions, radii,
/// vertices, box corners).
pub const COORD_MAX: i64 = 4096;

/// Largest magnitude allowed for a ray direction component.
pub const DIR_MAX: i64 = 4194304;

/// Largest magnitude kept for a surface normal component; longer normals
/// are halved until they fit.
pub const NORMAL_MAX: i64 = 1073741824;

/// A product of two integers of magnitude at most `m` and `n` has
/// magnitude at most `m * n`.
pub proof fn lemma_mul_bound(a: int, b: int, m: int, n: int)
    by (nonlinear_arith)
    requires
        -m <= a <= m,
        -n <= b <= n,
        0 <= m,
        0 <= n,
    ensures
        -(m * n) <= a * b <= m * n,
{
}

#[derive(Clone, Copy, Debug, PartialEq, Eq, Structural)]
pub struct Vec3 {
    pub x: i64,
    pub y: i64,
    pub z: i64,
}

pub open spec fn smin(a: int, b: int) -> int {
    if a <= b {
        a
    } else {
        b
    }
}

pub open spec fn smax(a: int, b: int) -> int {
    if a >= b {
        a
    } else {
        b
    }
}

/// Difference of two grid vectors, as an unbounded integer triple.
pub open spec fn t3_sub(a: Vec3, b: Vec3) -> (int, int, int) {
    (a.x - b.x, a.y - b.y, a.z - b.z)
}

/// A grid vector as an unbounded integer triple.
pub open spec fn t3_of(a: Vec3) -> (int, int, int) {
    (a.x as int, a.y as int, a.z as int)
}

/// Cross product of integer triples.
pub open spec fn t3_cross(a: (int, int, int), b: (int, int, int)) -> (int, int, int) {
    (a.1 * b.2 - a.2 * b.1, a.2 * b.0 - a.0 * b.2, a.0 * b.1 - a.1 * b.0)
}

/// Dot product of integer triples.
pub open spec fn t3_dot(a: (int, int, int), b: (int, int, int)) -> int {
    a.0 * b.0 + a.1 * b.1 + a.2 * b.2
}

/// An integer triple as a grid vector (components assumed in range).
pub open spec fn vec_of3(t: (int, int, int)) -> Vec3 {
    Vec3 { x: t.0 as i64, y: t.1 as i64, z: t.2 as i64 }
}

/// Componentwise difference as a grid vector (assumed in range).
pub open spec fn vsub(a: Vec3, b: Vec3) -> Vec3 {
    vec_of3(t3_sub(a, b))
}

/// Componentwise negation as a grid vector (assumed in range).
pub open spec fn vneg(a: Vec3) -> Vec3 {
    vec_of3((-a.x, -a.y, -a.z))
}

/// Dot product, as unbounded integers.
pub open spec fn sdot(a: Vec3, b: Vec3) -> int {
    a.x * b.x + a.y * b.y + a.z * b.z
}

/// Cross product components, as unbounded integers.
pub open spec fn scross_x(a: Vec3, b: Vec3) -> int {
    a.y * b.z - a.z * b.y
}

pub open spec fn scross_y(a: Vec3, b: Vec3) -> int {
    a.z * b.x - a.x * b.z
}

pub open spec fn scross_z(a: Vec3, b: Vec3) -> int {
    a.x * b.y - a.y * b.x
}

impl Vec3 {
    /// Every component has magnitude at most `b`.
    pub open spec fn bounded(self, b: int) -> bool {
        &&& -b <= self.x <= b
        &&& -b <= self.y <= b
        &&& -b <= self.z <= b
    }

    /// Component on the given axis (0, 1 or 2), as an unbounded integer.
    pub open spec fn saxis(self, i: int) -> int {
        if i == 0 {
            self.x as int
        } else if i == 1 {
            self.y as int
        } else {
            self.z as int
        }
    }

    pub fn new(x: i64, y: i64, z: i64) -> (r: Vec3)
        ensures
            r == (Vec3 { x, y, z }),
    {
        Vec3 { x, y, z }
    }

    pub fn axis(self, i: usize) -> (r: i64)
        requires
            i < 3,
        ensures
            r == self.saxis(i as int),
    {
        if i == 0 {
            self.x
        } else if i == 1 {
            self.y
        } else {
            self.z
        }
    }

    pub fn add_v(self, v2: Vec3) -> (r: Vec3)
        requires
            i64::MIN <= self.x + v2.x <= i64::MAX,
            i64::MIN <= self.y + v2.y <= i64::MAX,
            i64::MIN <= self.z + v2.z <= i64::MAX,
        ensures
            r.x == self.x + v2.x,
            r.y == self.y + v2.y,
            r.z == self.z + v2.z,
    {
        Vec3 { x: self.x + v2.x, y: self.y + v2.y, z: self.z + v2.z }
    }

    pub fn sub_v(self, v2: Vec3) -> (r: Vec3)
        requires
            i64::MIN <= self.x - v2.x <= i64::MAX,
            i64::MIN <= self.y - v2.y <= i64::MAX,
            i64::MIN <= self.z - v2.z <= i64::MAX,
        ensures
            r.x == self.x - v2.x,
            r.y == self.y - v2.y,
            r.z == self.z - v2.z,
    {
        Vec3 { x: self.x - v2.x, y: self.y - v2.y, z: self.z - v2.z }
    }

    pub fn mul_scalar(self, s: i64) -> (r: Vec3)
        requires
            i64::MIN <= self.x * s <= i64::MAX,
            i64::MIN <= self.y * s <= i64::MAX,
            i64::MIN <= self.z * s <= i64::MAX,
        ensures
            r.x == self.x * s,
            r.y == self.y * s,
            r.z == self.z * s,
    {
        Vec3 { x: self.x * s, y: self.y * s, z: self.z * s }
    }

    /// Exact dot product; the wide result type makes overflow impossible
    /// for any pair of `i64` vectors within the stated bound.
    pub fn dot(self, v2: Vec3) -> (r: i128)
        requires
            self.bounded(0x2000_0000_0000_0000),
            v2.bounded(0x2000_0000_0000_0000),
        ensures
            r == sdot(self, v2),
            -0xC00_0000_0000_0000_0000_0000_0000_0000 <= r <= 0xC00_0000_0000_0000_0000_0000_0000_0000,
    {
        proof {
            let m = 0x2000_0000_0000_0000int;
            lemma_mul_bound(self.x as int, v2.x as int, m, m);
            lemma_mul_bound(self.y as int, v2.y as int, m, m);
            lemma_mul_bound(self.z as int, v2.z as int, m, m);
        }
        (self.x as i128) * (v2.x as i128) + (self.y as i128) * (v2.y as i128) + (self.z as i128)
            * (v2.z as i128)
    }

    /// Exact cross product; the bound keeps each component within `i64`.
    pub fn cross(self, v2: Vec3) -> (r: Vec3)
        requires
            self.bounded(0x4000_0000),
            v2.bounded(0x4000_0000),
        ensures
            r.x == scross_x(self, v2),
            r.y == scross_y(self, v2),
            r.z == scross_z(self, v2),
            r.bounded(0x2000_0000_0000_0000),
    {
        proof {
            let m = 0x4000_0000int;
            lemma_mul_bound(self.y as int, v2.z as int, m, m);
            lemma_mul_bound(self.z as int, v2.y as int, m, m);
            lemma_mul_bound(self.z as int, v2.x as int, m, m);
            lemma_mul_bound(self.x as int, v2.z as int, m, m);
            lemma_mul_bound(self.x as int, v2.y as int, m, m);
            lemma_mul_bound(self.y as int, v2.x as int, m, m);
        }
        Vec3 {
            x: (((self.y as i128) * (v2.z as i128) - (self.z as i128) * (v2.y as i128))) as i64,
            y: (((self.z as i128) * (v2.x as i128) - (self.x as i128) * (v2.z as i128))) as i64,
            z: (((self.x as i128) * (v2.y as i128) - (self.y as i128) * (v2.x as i128))) as i64,
        }
    }

    pub fn min_v(self, v2: Vec3) -> (r: Vec3)
        ensures
            r.x == if self.x <= v2.x { self.x } else { v2.x },
            r.y == if self.y <= v2.y { self.y } else { v2.y },
            r.z == if self.z <= v2.z { self.z } else { v2.z },
    {
        Vec3 {
            x: if self.x <= v2.x { self.x } else { v2.x },
            y: if self.y <= v2.y { self.y } else { v2.y },
            z: if self.z <= v2.z { self.z } else { v2.z },
        }
    }

    pub fn max_v(self, v2: Vec3) -> (r: Vec3)
        ensures
            r.x == if self.x >= v2.x { self.x } else { v2.x },
            r.y == if self.y >= v2.y { self.y } else { v2.y },
            r.z == if self.z >= v2.z { self.z } else { v2.z },
    {
        Vec3 {
            x: if self.x >= v2.x { self.x } else { v2.x },
            y: if self.y >= v2.y { self.y } else { v2.y },
            z: if self.z >= v2.z { self.z } else { v2.z },
        }
    }

    pub fn equals(self, v2: Vec3) -> (r: bool)
        ensures
            r == (self == v2),
    {
        self.x == v2.x && self.y == v2.y && self.z == v2.z
    }
}

} // verus!
