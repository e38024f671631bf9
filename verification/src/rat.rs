//! Exact rational ray parameters.
//!
//! The distance `t` along a ray is an exact rational `num / den` with a
//! positive denominator.  Comparisons are done by cross-multiplication in
//! `i128`; the `T_MAX` bound on numerator and denominator keeps every such
//! product inside `i128`.  The module also provides an exact integer square
//! root, used by the sphere intersection.

use vstd::prelude::*;

verus! {

/// Bound on the magnitude of a `Tval` numerator and denominator.
pub const T_MAX: i128 = 0x1000_0000_0000_0000;

/// A ray parameter as an exact rational number `num / den`, `den > 0`.
#[derive(Clone, Copy, Debug, PartialEq, Eq, Structural)]
pub struct Tval {
    pub num: i128,
    pub den: i128,
}

/// `a < b` as rationals (both denominators positive).
pub open spec fn slt(a: Tval, b: Tval) -> bool {
    a.num * b.den < b.num * a.den
}

/// `a <= b` as rationals (both denominators positive).
pub open spec fn sle(a: Tval, b: Tval) -> bool {
    a.num * b.den <= b.num * a.den
}

/// `a == b` as rationals (both denominators positive).
pub open spec fn seq_rat(a: Tval, b: Tval) -> bool {
    a.num * b.den == b.num * a.den
}

impl Tval {
    pub open spec fn valid(self) -> bool {
        &&& -T_MAX <= self.num <= T_MAX
        &&& 1 <= self.den <= T_MAX
    }

    pub fn new(num: i128, den: i128) -> (r: Tval)
        requires
            -T_MAX <= num <= T_MAX,
            1 <= den <= T_MAX,
        ensures
            r == (Tval { num, den }),
            r.valid(),
    {
        Tval { num, den }
    }

    pub fn lt(self, other: Tval) -> (r: bool)
        requires
            self.valid(),
            other.valid(),
        ensures
            r == slt(self, other),
    {
        proof {
            lemma_tval_products_fit(self, other);
        }
        self.num * other.den < other.num * self.den
    }

    pub fn le(self, other: Tval) -> (r: bool)
        requires
            self.valid(),
            other.valid(),
        ensures
            r == sle(self, other),
    {
        proof {
            lemma_tval_products_fit(self, other);
        }
        self.num * other.den <= other.num * self.den
    }

    pub fn eq_rat(self, other: Tval) -> (r: bool)
        requires
            self.valid(),
            other.valid(),
        ensures
            r == seq_rat(self, other),
    {
        proof {
            lemma_tval_products_fit(self, other);
        }
        self.num * other.den == other.num * self.den
    }

    /// Whether the rational is at least zero.
    pub fn nonneg(self) -> (r: bool)
        requires
            self.valid(),
        ensures
            r == (self.num >= 0),
    {
        self.num >= 0
    }
}

/// Cross-multiplied products of two valid `Tval`s stay inside `i128`.
pub proof fn lemma_tval_products_fit(a: Tval, b: Tval)
    requires
        a.valid(),
        b.valid(),
    ensures
        -(T_MAX * T_MAX) <= a.num * b.den <= T_MAX * T_MAX,
        -(T_MAX * T_MAX) <= b.num * a.den <= T_MAX * T_MAX,
{
    crate::vec3::lemma_mul_bound(a.num as int, b.den as int, T_MAX as int, T_MAX as int);
    crate::vec3::lemma_mul_bound(b.num as int, a.den as int, T_MAX as int, T_MAX as int);
}

/// Upper cap, in direction lengths, on the range of a ray query whose hit
/// point must come back on the grid.
pub const T_CAP: i128 = 0x10_0000;

/// The rational is at most `T_CAP`: far plane of every scene query.
pub open spec fn capped(t: Tval) -> bool {
    t.num <= T_CAP * t.den
}

/// `a0/a1 <= b0/b1` for positive denominators, on bare pairs.
pub open spec fn nd_le(a0: int, a1: int, b0: int, b1: int) -> bool {
    a0 * b1 <= b0 * a1
}

/// `a0/a1 < b0/b1` for positive denominators, on bare pairs.
pub open spec fn nd_lt(a0: int, a1: int, b0: int, b1: int) -> bool {
    a0 * b1 < b0 * a1
}

/// Chaining a strict and a weak comparison of bare pairs.
pub proof fn lemma_nd_lt_le_trans(a0: int, a1: int, b0: int, b1: int, c0: int, c1: int)
    by (nonlinear_arith)
    requires
        a1 > 0,
        b1 > 0,
        c1 > 0,
        nd_lt(a0, a1, b0, b1),
        nd_le(b0, b1, c0, c1),
    ensures
        nd_lt(a0, a1, c0, c1),
{
}

pub proof fn lemma_nd_le_trans(a0: int, a1: int, b0: int, b1: int, c0: int, c1: int)
    by (nonlinear_arith)
    requires
        a1 > 0,
        b1 > 0,
        c1 > 0,
        nd_le(a0, a1, b0, b1),
        nd_le(b0, b1, c0, c1),
    ensures
        nd_le(a0, a1, c0, c1),
{
}

/// A capped parameter is strictly below the sentinel.
pub proof fn lemma_capped_below_sentinel(t: Tval)
    by (nonlinear_arith)
    requires
        t.valid(),
        capped(t),
    ensures
        nd_lt(t.num as int, t.den as int, T_MAX as int, 1),
{
}

/// Anything below a capped rational is capped.
pub proof fn lemma_capped_mono(a: Tval, b: Tval)
    by (nonlinear_arith)
    requires
        a.den > 0,
        b.den > 0,
        sle(a, b),
        capped(b),
    ensures
        capped(a),
{
}

/// The rational `n / d` lies weakly between `t_min` and `t_max`
/// (`d > 0` assumed).
pub open spec fn between_weak(t_min: Tval, t_max: Tval, n: int, d: int) -> bool {
    &&& t_min.num * d <= n * t_min.den
    &&& n * t_max.den <= t_max.num * d
}

/// The rational `n / d` lies strictly between `t_min` and `t_max`
/// (`d > 0` assumed).
pub open spec fn between_strict(t_min: Tval, t_max: Tval, n: int, d: int) -> bool {
    &&& t_min.num * d < n * t_min.den
    &&& n * t_max.den < t_max.num * d
}

/// `r` is the integer square root of `n`: the largest integer whose square
/// does not exceed `n`.
pub open spec fn is_isqrt(n: int, r: int) -> bool {
    &&& 0 <= r
    &&& r * r <= n
    &&& n < (r + 1) * (r + 1)
}

/// The integer square root, as a spec-level value.
pub open spec fn sqrt_floor(n: int) -> int {
    choose|r: int| is_isqrt(n, r)
}

/// Every nonnegative integer has an integer square root, and `sqrt_floor`
/// denotes it.
pub proof fn lemma_sqrt_floor_exists(n: int)
    requires
        n >= 0,
    ensures
        is_isqrt(n, sqrt_floor(n)),
    decreases n,
{
    if n == 0 {
        assert(is_isqrt(0, 0));
    } else {
        lemma_sqrt_floor_exists(n - 1);
        let r0 = sqrt_floor(n - 1);
        if (r0 + 1) * (r0 + 1) <= n {
            assert(is_isqrt(n, r0 + 1)) by (nonlinear_arith)
                requires
                    is_isqrt(n - 1, r0),
                    (r0 + 1) * (r0 + 1) <= n,
            ;
        } else {
            assert(is_isqrt(n, r0));
        }
    }
}

/// The integer square root is unique.
pub proof fn lemma_isqrt_unique(n: int, r: int)
    requires
        n >= 0,
        is_isqrt(n, r),
    ensures
        r == sqrt_floor(n),
{
    lemma_sqrt_floor_exists(n);
    let s = sqrt_floor(n);
    assert(r == s) by (nonlinear_arith)
        requires
            is_isqrt(n, r),
            is_isqrt(n, s),
    ;
}

/// Exact integer square root by bisection.
pub fn isqrt(n: i128) -> (r: i128)
    requires
        0 <= n < 0x4000_0000_0000_0000_0000_0000_0000_0000,
    ensures
        is_isqrt(n as int, r as int),
        r == sqrt_floor(n as int),
        0 <= r < 0x8000_0000_0000_0000,
{
    let nu = n as u128;
    let mut lo: u128 = 0;
    let mut hi: u128 = 0x8000_0000_0000_0000;
    proof {
        crate::vec3::lemma_mul_bound(hi as int, hi as int, 0x8000_0000_0000_0000, 0x8000_0000_0000_0000);
        assert(0x8000_0000_0000_0000int * 0x8000_0000_0000_0000int
            == 0x4000_0000_0000_0000_0000_0000_0000_0000int) by (nonlinear_arith);
    }
    while lo + 1 < hi
        invariant
            lo < hi <= 0x8000_0000_0000_0000,
            (lo as int) * (lo as int) <= nu as int,
            (nu as int) < (hi as int) * (hi as int),
            nu == n,
        decreases hi - lo,
    {
        let mid = lo + (hi - lo) / 2;
        proof {
            crate::vec3::lemma_mul_bound(mid as int, mid as int, 0x8000_0000_0000_0000, 0x8000_0000_0000_0000);
        }
        if mid * mid <= nu {
            lo = mid;
        } else {
            hi = mid;
        }
    }
    proof {
        assert(is_isqrt(n as int, lo as int));
        lemma_isqrt_unique(n as int, lo as int);
    }
    lo as i128
}

} // verus!
