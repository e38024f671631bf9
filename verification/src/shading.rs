//! The arithmetic of light transport, exactly.
//!
//! Colors are integer channel triples on the 0..=255 scale; dimensionless
//! weights are thousandths.  Unit-vector quantities (cosines) are
//! computed through the integer square root and clamped into 0..=1000,
//! which also absorbs the floor-rounding slack.  Every function's
//! contract states the exact formula it computes.

use vstd::prelude::*;
use crate::hit::div_floor;
use crate::hit::reduce_dir_to;
use crate::hit::sreduce;
use crate::lights::AmbientLight;
use crate::lights::Light;
use crate::rat::is_isqrt;
use crate::rat::isqrt;
use crate::rat::sqrt_floor;
use crate::vec3::DIR_MAX;
use crate::vec3::NORMAL_MAX;
use crate::vec3::Vec3;
use crate::vec3::lemma_mul_bound;
use crate::vec3::sdot;
use crate::vec3::smax;

verus! {

/// Magnitude cap for any channel of a computed color.
pub const COLOR_MAX: i64 = 0x8000_0000_0000;

/// Magnitude cap applied to a recursively traced color before it feeds a
/// reflective or transmissive term, so color magnitudes cannot grow
/// without bound along a bounce chain.
pub const BOUNCE_CLAMP: i64 = 0x1_0000_0000;

/// Grid bound within which shading points live.
pub const POINT_MAX: i64 = 0x800_0000_0000;

/// Squared distance between two grid points.
pub open spec fn sdist2(a: Vec3, b: Vec3) -> int {
    (a.x - b.x) * (a.x - b.x) + (a.y - b.y) * (a.y - b.y) + (a.z - b.z) * (a.z - b.z)
}

/// One attenuated channel: `c * i / (1000 * d2)`, with the squared
/// distance floored at one.
pub open spec fn att_channel(c: int, inten: int, d2: int) -> int {
    (c * inten) / (1000 * smax(d2, 1))
}

/// The color a light contributes at a point: inverse-square attenuation.
pub open spec fn light_at(l: Light, p: Vec3) -> (int, int, int) {
    match l {
        Light::PointLight(pl) => {
            let d2 = sdist2(pl.position, p);
            (
                att_channel(pl.color.x as int, pl.intensity as int, d2),
                att_channel(pl.color.y as int, pl.intensity as int, d2),
                att_channel(pl.color.z as int, pl.intensity as int, d2),
            )
        },
    }
}

/// The attenuated color of one light at a point.
pub fn light_color_at(l: &Light, p: Vec3) -> (r: Vec3)
    requires
        l.wf(),
        p.bounded(POINT_MAX as int),
    ensures
        (r.x as int, r.y as int, r.z as int) == light_at(*l, p),
        r.bounded(255),
        r.x >= 0 && r.y >= 0 && r.z >= 0,
{
    match l {
        Light::PointLight(pl) => {
            proof {
                lemma_mul_bound(pl.position.x - p.x, pl.position.x - p.x, 0x801_0000_0000, 0x801_0000_0000);
                lemma_mul_bound(pl.position.y - p.y, pl.position.y - p.y, 0x801_0000_0000, 0x801_0000_0000);
                lemma_mul_bound(pl.position.z - p.z, pl.position.z - p.z, 0x801_0000_0000, 0x801_0000_0000);
                assert((pl.position.x - p.x) * (pl.position.x - p.x) >= 0 && (pl.position.y - p.y)
                    * (pl.position.y - p.y) >= 0 && (pl.position.z - p.z) * (pl.position.z - p.z)
                    >= 0) by (nonlinear_arith);
            }
            let dx = (pl.position.x as i128) - (p.x as i128);
            let dy = (pl.position.y as i128) - (p.y as i128);
            let dz = (pl.position.z as i128) - (p.z as i128);
            let d2 = dx * dx + dy * dy + dz * dz;
            let dm = if d2 < 1 {
                1
            } else {
                d2
            };
            let den = 1000 * dm;
            let cx = att_div(pl.color.x, pl.intensity, den, dm);
            let cy = att_div(pl.color.y, pl.intensity, den, dm);
            let cz = att_div(pl.color.z, pl.intensity, den, dm);
            proof {
                assert(dm == smax(sdist2(pl.position, p), 1));
            }
            Vec3 { x: cx, y: cy, z: cz }
        },
    }
}

/// One attenuation division, bounded back into a channel.
fn att_div(c: i64, inten: i64, den: i128, dm: i128) -> (r: i64)
    requires
        0 <= c <= 255,
        0 <= inten <= 1000,
        1 <= dm <= 0x4000_0000_0000_0000_0000_0000,
        den == 1000 * dm,
    ensures
        r == (c * inten) / (1000 * smax(dm as int, 1)),
        0 <= r <= 255,
{
    proof {
        lemma_mul_bound(c as int, inten as int, 255, 1000);
        assert(0 <= c * inten <= 255 * den) by (nonlinear_arith)
            requires
                0 <= c * inten <= 255000,
                den == 1000 * dm,
                dm >= 1,
        ;
        crate::hit::lemma_div_range(c as int * inten, den as int, 0, 255);
        assert(smax(dm as int, 1) == dm);
    }
    let q = div_floor((c as i128) * (inten as i128), den);
    q as i64
}

/// Channelwise sum of the attenuated colors of a list of lights.
pub open spec fn lights_sum(lights: Seq<Light>, p: Vec3) -> (int, int, int)
    decreases lights.len(),
{
    if lights.len() == 0 {
        (0, 0, 0)
    } else {
        let rest = lights_sum(lights.drop_last(), p);
        let c = light_at(lights.last(), p);
        (rest.0 + c.0, rest.1 + c.1, rest.2 + c.2)
    }
}

/// Cosine of the angle between two directions, in thousandths, clamped
/// into 0..=1000 (negative cosines shade as zero; the upper clamp covers
/// the rounding slack of the integer square roots).
pub open spec fn unit_cos_milli(a: Vec3, b: Vec3) -> int {
    let d = sdot(a, b);
    if d <= 0 {
        0
    } else {
        let la = smax(sqrt_floor(sdot(a, a)), 1);
        let lb = smax(sqrt_floor(sdot(b, b)), 1);
        let v = (1000 * d) / (la * lb);
        if v > 1000 {
            1000
        } else {
            v
        }
    }
}

/// The clamped unit cosine of two bounded directions.
pub fn unit_cos(a: Vec3, b: Vec3) -> (r: i64)
    requires
        a.bounded(0x2000_0000_0000),
        b.bounded(0x2000_0000_0000),
    ensures
        r == unit_cos_milli(a, b),
        0 <= r <= 1000,
{
    let d = a.dot(b);
    if d <= 0 {
        proof {
            assert(unit_cos_milli(a, b) == 0);
        }
        0
    } else {
        let a2 = a.dot(a);
        let b2 = b.dot(b);
        proof {
            assert(a2 >= 0 && b2 >= 0) by (nonlinear_arith)
                requires
                    a2 == a.x * a.x + a.y * a.y + a.z * a.z,
                    b2 == b.x * b.x + b.y * b.y + b.z * b.z,
            ;
        }
        let la0 = isqrt(a2);
        let lb0 = isqrt(b2);
        let la = if la0 < 1 {
            1
        } else {
            la0
        };
        let lb = if lb0 < 1 {
            1
        } else {
            lb0
        };
        proof {
            lemma_mul_bound(a.x as int, b.x as int, 0x2000_0000_0000, 0x2000_0000_0000);
            lemma_mul_bound(a.y as int, b.y as int, 0x2000_0000_0000, 0x2000_0000_0000);
            lemma_mul_bound(a.z as int, b.z as int, 0x2000_0000_0000, 0x2000_0000_0000);
            lemma_mul_bound(la as int, lb as int, 0x8000_0000_0000_0000, 0x8000_0000_0000_0000);
            assert(la * lb >= 1) by (nonlinear_arith)
                requires
                    la >= 1,
                    lb >= 1,
            ;
            crate::hit::lemma_div_range(0, la as int * (lb as int), 0, 0);
            assert(1000 * d >= 0);
            vstd::arithmetic::div_mod::lemma_div_is_ordered(0, 1000 * (d as int), la as int * (
            lb as int));
        }
        let v = div_floor(1000 * d, la * lb);
        if v > 1000 {
            1000
        } else {
            proof {
                assert(v >= 0int / (la as int * (lb as int)));
            }
            v as i64
        }
    }
}

/// Repeated per-mille multiplication: the specular power function.
pub open spec fn pow_milli(b: int, e: nat) -> int
    decreases e,
{
    if e == 0 {
        1000
    } else {
        (b * pow_milli(b, (e - 1) as nat)) / 1000
    }
}

/// `pow_milli` stays within 0..=1000 for a clamped base.
pub proof fn lemma_pow_milli_range(b: int, e: nat)
    requires
        0 <= b <= 1000,
    ensures
        0 <= pow_milli(b, e) <= 1000,
    decreases e,
{
    if e > 0 {
        lemma_pow_milli_range(b, (e - 1) as nat);
        let p = pow_milli(b, (e - 1) as nat);
        lemma_mul_bound(b, p, 1000, 1000);
        assert(0 <= b * p) by (nonlinear_arith)
            requires
                0 <= b,
                0 <= p,
        ;
        crate::hit::lemma_div_range(b * p, 1000, 0, 1000);
    }
}

/// The specular power function.
pub fn pow_factor(b: i64, e: u32) -> (r: i64)
    requires
        0 <= b <= 1000,
    ensures
        r == pow_milli(b as int, e as nat),
        0 <= r <= 1000,
{
    let mut acc: i64 = 1000;
    let mut k: u32 = 0;
    proof {
        lemma_pow_milli_range(b as int, e as nat);
    }
    while k < e
        invariant
            k <= e,
            0 <= b <= 1000,
            acc == pow_milli(b as int, k as nat),
            0 <= acc <= 1000,
        decreases e - k,
    {
        proof {
            lemma_mul_bound(b as int, acc as int, 1000, 1000);
            assert(0 <= b * acc) by (nonlinear_arith)
                requires
                    0 <= b,
                    0 <= acc,
            ;
            crate::hit::lemma_div_range(b as int * acc, 1000, 0, 1000);
        }
        let next = div_floor((b as i128) * (acc as i128), 1000);
        acc = next as i64;
        k = k + 1;
    }
    acc
}

/// The mirror direction, scaled: with `i = -d`, the reflection of the
/// incoming direction about the normal is
/// `2 * max(0, n . i) * n - (n . n) * i`.
pub open spec fn reflect_scaled(d: Vec3, n: Vec3, a: int) -> int {
    let ndi = smax(0, -sdot(n, d));
    2 * ndi * n.saxis(a) - sdot(n, n) * (-d.saxis(a))
}

/// The mirror direction, reduced onto the ray-direction grid.
pub fn reflect_dir(d: Vec3, n: Vec3) -> (r: Vec3)
    requires
        d.bounded(DIR_MAX as int),
        n.bounded(NORMAL_MAX as int),
    ensures
        (r.x as int, r.y as int, r.z as int) == sreduce(
            reflect_scaled(d, n, 0),
            reflect_scaled(d, n, 1),
            reflect_scaled(d, n, 2),
            DIR_MAX as int,
        ),
        r.bounded(DIR_MAX as int),
{
    let nd = n.dot(d);
    let ndi: i128 = if -nd > 0 {
        -nd
    } else {
        0
    };
    let nn = n.dot(n);
    proof {
        lemma_mul_bound(n.x as int, d.x as int, NORMAL_MAX as int, DIR_MAX as int);
        lemma_mul_bound(n.y as int, d.y as int, NORMAL_MAX as int, DIR_MAX as int);
        lemma_mul_bound(n.z as int, d.z as int, NORMAL_MAX as int, DIR_MAX as int);
        lemma_mul_bound(n.x as int, n.x as int, NORMAL_MAX as int, NORMAL_MAX as int);
        lemma_mul_bound(n.y as int, n.y as int, NORMAL_MAX as int, NORMAL_MAX as int);
        lemma_mul_bound(n.z as int, n.z as int, NORMAL_MAX as int, NORMAL_MAX as int);
    }
    let tn = 2 * ndi;
    proof {
        lemma_mul_bound(tn as int, n.x as int, 0x80_0000_0000_0000, NORMAL_MAX as int);
        lemma_mul_bound(tn as int, n.y as int, 0x80_0000_0000_0000, NORMAL_MAX as int);
        lemma_mul_bound(tn as int, n.z as int, 0x80_0000_0000_0000, NORMAL_MAX as int);
        lemma_mul_bound(nn as int, -(d.x as int), 0x3000_0000_0000_0000, DIR_MAX as int);
        lemma_mul_bound(nn as int, -(d.y as int), 0x3000_0000_0000_0000, DIR_MAX as int);
        lemma_mul_bound(nn as int, -(d.z as int), 0x3000_0000_0000_0000, DIR_MAX as int);
    }
    let rx = tn * (n.x as i128) - nn * (-(d.x as i128));
    let ry = tn * (n.y as i128) - nn * (-(d.y as i128));
    let rz = tn * (n.z as i128) - nn * (-(d.z as i128));
    reduce_dir_to(rx, ry, rz, DIR_MAX)
}

/// Cosine between the reversed incoming direction and the normal, in
/// thousandths, clamped into 0..=1000.
pub open spec fn opp_cos_milli(d: Vec3, n: Vec3) -> int {
    let s = -sdot(d, n);
    if s <= 0 {
        0
    } else {
        let ld = smax(sqrt_floor(sdot(d, d)), 1);
        let ln = smax(sqrt_floor(sdot(n, n)), 1);
        let v = (1000 * s) / (ld * ln);
        if v > 1000 {
            1000
        } else {
            v
        }
    }
}

/// The clamped entering cosine of a ray against a surface.
pub fn opp_cos(d: Vec3, n: Vec3) -> (r: i64)
    requires
        d.bounded(0x2000_0000_0000),
        n.bounded(0x2000_0000_0000),
    ensures
        r == opp_cos_milli(d, n),
        0 <= r <= 1000,
{
    let neg = Vec3 { x: -d.x, y: -d.y, z: -d.z };
    let r = unit_cos(neg, n);
    proof {
        assert(sdot(neg, neg) == sdot(d, d)) by (nonlinear_arith)
            requires
                neg.x == -d.x && neg.y == -d.y && neg.z == -d.z,
        ;
        assert(sdot(neg, n) == -sdot(d, n)) by (nonlinear_arith)
            requires
                neg.x == -d.x && neg.y == -d.y && neg.z == -d.z,
        ;
    }
    r
}

/// Snell's squared-sine discriminant, in the scale of the squared index
/// denominator times `10^6`: negative exactly on total internal
/// reflection.
pub open spec fn refract_k(en: int, ed: int, c: int) -> int {
    ed * ed * 1000000 - en * en * (1000000 - c * c)
}

/// The transmitted direction, scaled: Snell's construction with the
/// entering cosine `c` and the index ratio `en/ed`,
/// `T = en*1000*|n| * d + (en*c - sqrt(k)) * |d| * n`.
pub open spec fn refract_scaled(d: Vec3, n: Vec3, en: int, ed: int, a: int) -> int {
    let c = opp_cos_milli(d, n);
    let k = refract_k(en, ed, c);
    let s = sqrt_floor(smax(k, 0));
    let ld = smax(sqrt_floor(sdot(d, d)), 1);
    let ln = smax(sqrt_floor(sdot(n, n)), 1);
    (en * 1000 * ln) * d.saxis(a) + ((en * c - s) * ld) * n.saxis(a)
}

/// The transmitted direction of a ray through a surface, reduced onto
/// the ray-direction grid; the flag reports total internal reflection,
/// in which case no direction exists.
pub fn refract_dir(d: Vec3, n: Vec3, en: i64, ed: i64) -> (r: (Vec3, bool))
    requires
        d.bounded(DIR_MAX as int),
        n.bounded(NORMAL_MAX as int),
        1 <= en <= 10000,
        1 <= ed <= 10000,
    ensures
        r.1 == (refract_k(en as int, ed as int, opp_cos_milli(d, n)) < 0),
        !r.1 ==> (r.0.x as int, r.0.y as int, r.0.z as int) == sreduce(
            refract_scaled(d, n, en as int, ed as int, 0),
            refract_scaled(d, n, en as int, ed as int, 1),
            refract_scaled(d, n, en as int, ed as int, 2),
            DIR_MAX as int,
        ),
        r.0.bounded(DIR_MAX as int),
{
    let c = opp_cos(d, n);
    proof {
        lemma_mul_bound(ed as int, ed as int, 10000, 10000);
        lemma_mul_bound(en as int, en as int, 10000, 10000);
        lemma_mul_bound(c as int, c as int, 1000, 1000);
        lemma_mul_bound(
            en as int * en,
            1000000 - c as int * c,
            100000000,
            1000000,
        );
    }
    let k = (ed as i128) * (ed as i128) * 1000000 - (en as i128) * (en as i128) * (1000000 - (
    c as i128) * (c as i128));
    if k < 0 {
        (Vec3 { x: 0, y: 0, z: 0 }, true)
    } else {
        let sk = isqrt(k);
        proof {
            assert(sk <= 20000000) by (nonlinear_arith)
                requires
                    is_isqrt(k as int, sk as int),
                    0 <= k <= 200000000000000,
            ;
        }
        let d2 = d.dot(d);
        let n2 = n.dot(n);
        proof {
            lemma_mul_bound(d.x as int, d.x as int, DIR_MAX as int, DIR_MAX as int);
            lemma_mul_bound(d.y as int, d.y as int, DIR_MAX as int, DIR_MAX as int);
            lemma_mul_bound(d.z as int, d.z as int, DIR_MAX as int, DIR_MAX as int);
            lemma_mul_bound(n.x as int, n.x as int, NORMAL_MAX as int, NORMAL_MAX as int);
            lemma_mul_bound(n.y as int, n.y as int, NORMAL_MAX as int, NORMAL_MAX as int);
            lemma_mul_bound(n.z as int, n.z as int, NORMAL_MAX as int, NORMAL_MAX as int);
            assert(d2 >= 0 && n2 >= 0) by (nonlinear_arith)
                requires
                    d2 == d.x * d.x + d.y * d.y + d.z * d.z,
                    n2 == n.x * n.x + n.y * n.y + n.z * n.z,
            ;
        }
        let ld0 = isqrt(d2);
        let ln0 = isqrt(n2);
        let ld = if ld0 < 1 {
            1
        } else {
            ld0
        };
        let ln = if ln0 < 1 {
            1
        } else {
            ln0
        };
        proof {
            assert(ld <= 0x100_0000) by (nonlinear_arith)
                requires
                    is_isqrt(d2 as int, ld0 as int),
                    ld as int == crate::vec3::smax(ld0 as int, 1),
                    0 <= d2 <= 0x3000_0000_0000,
            ;
            assert(ln <= 0x2_0000_0000) by (nonlinear_arith)
                requires
                    is_isqrt(n2 as int, ln0 as int),
                    ln as int == crate::vec3::smax(ln0 as int, 1),
                    0 <= n2 <= 0x3000_0000_0000_0000,
            ;
            lemma_mul_bound(en as int * 1000, ln as int, 10000000, 0x2_0000_0000);
            lemma_mul_bound(en as int, c as int, 10000, 1000);
            lemma_mul_bound(en as int * (c as int) - sk as int, ld as int, 0x2000_0000, 0x100_0000);
        }
        let cd = (en as i128) * 1000 * ln;
        let cn = ((en as i128) * (c as i128) - sk) * ld;
        proof {
            lemma_mul_bound(cd as int, d.x as int, 0x1_0000_0000_0000_0000, DIR_MAX as int);
            lemma_mul_bound(cd as int, d.y as int, 0x1_0000_0000_0000_0000, DIR_MAX as int);
            lemma_mul_bound(cd as int, d.z as int, 0x1_0000_0000_0000_0000, DIR_MAX as int);
            lemma_mul_bound(cn as int, n.x as int, 0x1_0000_0000_0000_0000, NORMAL_MAX as int);
            lemma_mul_bound(cn as int, n.y as int, 0x1_0000_0000_0000_0000, NORMAL_MAX as int);
            lemma_mul_bound(cn as int, n.z as int, 0x1_0000_0000_0000_0000, NORMAL_MAX as int);
        }
        let tx = cd * (d.x as i128) + cn * (n.x as i128);
        let ty = cd * (d.y as i128) + cn * (n.y as i128);
        let tz = cd * (d.z as i128) + cn * (n.z as i128);
        let dir = reduce_dir_to(tx, ty, tz, DIR_MAX);
        (dir, false)
    }
}

/// With equal refractive indices and a ray exactly opposed to the
/// surface direction, the transmitted direction is the incident
/// direction scaled by a positive constant: refraction does not bend a
/// normal-incidence ray.
pub proof fn lemma_refraction_normal_incidence(d: Vec3, n: Vec3, e: int)
    requires
        1 <= e <= 10000,
        sdot(d, n) == -(smax(sqrt_floor(sdot(d, d)), 1) * smax(sqrt_floor(sdot(n, n)), 1)),
    ensures
        refract_k(e, e, opp_cos_milli(d, n)) >= 0,
        forall|a: int|
            0 <= a < 3 ==> #[trigger] refract_scaled(d, n, e, e, a) == (e * 1000 * smax(
                sqrt_floor(sdot(n, n)),
                1,
            )) * d.saxis(a),
{
    let ld = smax(sqrt_floor(sdot(d, d)), 1);
    let ln = smax(sqrt_floor(sdot(n, n)), 1);
    let s0 = -sdot(d, n);
    assert(s0 == ld * ln);
    assert(s0 >= 1) by (nonlinear_arith)
        requires
            s0 == ld * ln,
            ld >= 1,
            ln >= 1,
    ;
    assert((1000 * s0) / (ld * ln) == 1000) by {
        vstd::arithmetic::div_mod::lemma_div_multiples_vanish(1000, ld * ln);
        assert(1000 * s0 == (ld * ln) * 1000) by (nonlinear_arith)
            requires
                s0 == ld * ln,
        ;
    }
    assert(opp_cos_milli(d, n) == 1000);
    let k = refract_k(e, e, 1000);
    assert(k == e * e * 1000000) by (nonlinear_arith)
        requires
            k == e * e * 1000000 - e * e * (1000000 - 1000 * 1000),
    ;
    assert(k >= 0) by (nonlinear_arith)
        requires
            k == e * e * 1000000,
    ;
    assert(is_isqrt(k, 1000 * e)) by (nonlinear_arith)
        requires
            k == e * e * 1000000,
            1 <= e,
    ;
    crate::rat::lemma_isqrt_unique(k, 1000 * e);
    assert(sqrt_floor(smax(k, 0)) == 1000 * e);
    assert forall|a: int| 0 <= a < 3 implies #[trigger] refract_scaled(d, n, e, e, a) == (e * 1000
        * ln) * d.saxis(a) by {
        assert(e * 1000 == 1000 * e) by (nonlinear_arith);
        assert((e * 1000 - 1000 * e) * ld == 0) by (nonlinear_arith);
        assert(((e * 1000 - 1000 * e) * ld) * n.saxis(a) == 0) by (nonlinear_arith)
            requires
                (e * 1000 - 1000 * e) * ld == 0,
        ;
    }
}

/// Total color of a list of ambient lights weighted by the ambient
/// factor: each channel is `ka * intensity / 1000`, summed.
pub open spec fn ambient_sum(amb: Seq<AmbientLight>, ka: int) -> (int, int, int)
    decreases amb.len(),
{
    if amb.len() == 0 {
        (0, 0, 0)
    } else {
        let rest = ambient_sum(amb.drop_last(), ka);
        let a = amb.last();
        (
            rest.0 + (ka * a.intensity.x) / 1000,
            rest.1 + (ka * a.intensity.y) / 1000,
            rest.2 + (ka * a.intensity.z) / 1000,
        )
    }
}

/// The fixed shadow attenuation: each occluding light takes three tenths
/// of the unshadowed base off the running color, rounding down, without
/// clamping at zero.
pub open spec fn shadow_step(c: int, base: int) -> int {
    c - (3 * base) / 10
}

/// Subtract three tenths of `base` from `c`, channelwise.
pub fn apply_shadow(c: Vec3, base: Vec3) -> (r: Vec3)
    requires
        c.bounded(0x40_0000_0000_0000),
        base.bounded(0x40_0000_0000_0000),
    ensures
        r.x == shadow_step(c.x as int, base.x as int),
        r.y == shadow_step(c.y as int, base.y as int),
        r.z == shadow_step(c.z as int, base.z as int),
        r.bounded(0x80_0000_0000_0000),
{
    proof {
        crate::hit::lemma_div_range(3 * (base.x as int), 10, -0x40_0000_0000_0000, 0x40_0000_0000_0000);
        crate::hit::lemma_div_range(3 * (base.y as int), 10, -0x40_0000_0000_0000, 0x40_0000_0000_0000);
        crate::hit::lemma_div_range(3 * (base.z as int), 10, -0x40_0000_0000_0000, 0x40_0000_0000_0000);
    }
    let sx = div_floor(3 * (base.x as i128), 10);
    let sy = div_floor(3 * (base.y as i128), 10);
    let sz = div_floor(3 * (base.z as i128), 10);
    Vec3 { x: c.x - (sx as i64), y: c.y - (sy as i64), z: c.z - (sz as i64) }
}

/// Clamp one channel of a recursively traced color into the bounce
/// budget.
pub open spec fn clamp_channel(v: int) -> int {
    if v > BOUNCE_CLAMP {
        BOUNCE_CLAMP as int
    } else if v < -BOUNCE_CLAMP {
        -(BOUNCE_CLAMP as int)
    } else {
        v
    }
}

/// A traced color clamped into the bounce budget, as a value.
pub open spec fn spec_clamp_bounce(c: Vec3) -> Vec3 {
    Vec3 {
        x: clamp_channel(c.x as int) as i64,
        y: clamp_channel(c.y as int) as i64,
        z: clamp_channel(c.z as int) as i64,
    }
}

/// Clamp a traced color into the bounce budget, channelwise.
pub fn clamp_bounce(c: Vec3) -> (r: Vec3)
    ensures
        r == spec_clamp_bounce(c),
        r.x == clamp_channel(c.x as int),
        r.y == clamp_channel(c.y as int),
        r.z == clamp_channel(c.z as int),
        r.bounded(BOUNCE_CLAMP as int),
{
    let cx = if c.x > BOUNCE_CLAMP {
        BOUNCE_CLAMP
    } else if c.x < -BOUNCE_CLAMP {
        -BOUNCE_CLAMP
    } else {
        c.x
    };
    let cy = if c.y > BOUNCE_CLAMP {
        BOUNCE_CLAMP
    } else if c.y < -BOUNCE_CLAMP {
        -BOUNCE_CLAMP
    } else {
        c.y
    };
    let cz = if c.z > BOUNCE_CLAMP {
        BOUNCE_CLAMP
    } else if c.z < -BOUNCE_CLAMP {
        -BOUNCE_CLAMP
    } else {
        c.z
    };
    Vec3 { x: cx, y: cy, z: cz }
}

} // verus!
