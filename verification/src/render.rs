//! The frame renderer: plain per-pixel rendering, and adaptive
//! supersampling with a memoized sample cache.
//!
//! Coordinates on the pixel plane are in `1/65536` units of the image.
//! The cache maps a packed plane coordinate to the color already computed
//! there; a repeated query provably costs no further ray.  A cell whose
//! four corner samples agree within tolerance is never subdivided.

use vstd::prelude::*;
use std::collections::HashMap;
use crate::camera::PLANE_ONE;
use crate::hit::div_floor;
use crate::scene::Scene;
use crate::shading::COLOR_MAX;
use crate::vec3::Vec3;

verus! {

broadcast use vstd::std_specs::hash::group_hash_axioms;

/// A packed pixel-plane coordinate: the cache key.
pub open spec fn spec_key(x: int, y: int) -> int {
    x * 0x1_0000_0000 + y
}

/// Pack a plane coordinate into a cache key.
pub fn cache_key(x: u32, y: u32) -> (r: u64)
    ensures
        r == spec_key(x as int, y as int),
{
    proof {
        crate::vec3::lemma_mul_bound(x as int, 0x1_0000_0000, 0x1_0000_0000, 0x1_0000_0000);
    }
    (x as u64) * 0x1_0000_0000 + (y as u64)
}

/// Packing is injective on plane coordinates.
pub proof fn lemma_key_injective(x1: int, y1: int, x2: int, y2: int)
    by (nonlinear_arith)
    requires
        0 <= y1 < 0x1_0000_0000,
        0 <= y2 < 0x1_0000_0000,
        spec_key(x1, y1) == spec_key(x2, y2),
    ensures
        x1 == x2 && y1 == y2,
{
}

/// The per-mille percent difference of two colors: for each channel,
/// twice the magnitude of the difference over the magnitude of the sum
/// (floored at one), averaged over the channels.  The definition is
/// total; equal colors always measure zero.
pub open spec fn percent_diff_milli(a: Vec3, b: Vec3) -> int {
    (pd_channel(a.x as int, b.x as int) + pd_channel(a.y as int, b.y as int) + pd_channel(
        a.z as int,
        b.z as int,
    )) / 3
}

pub open spec fn pd_channel(a: int, b: int) -> int {
    (2000 * (vstd::math::abs(a - b) as int)) / crate::vec3::smax(
        (vstd::math::abs(a) as int) + (vstd::math::abs(b) as int),
        1,
    )
}

/// Equal colors have zero percent difference.
pub proof fn lemma_percent_diff_zero(a: Vec3)
    ensures
        percent_diff_milli(a, a) == 0,
{
    assert(pd_channel(a.x as int, a.x as int) == 0) by {
        vstd::arithmetic::div_mod::lemma_basic_div(
            0,
            crate::vec3::smax((vstd::math::abs(a.x as int) as int) + (vstd::math::abs(a.x as int) as int), 1),
        );
    }
    assert(pd_channel(a.y as int, a.y as int) == 0) by {
        vstd::arithmetic::div_mod::lemma_basic_div(
            0,
            crate::vec3::smax((vstd::math::abs(a.y as int) as int) + (vstd::math::abs(a.y as int) as int), 1),
        );
    }
    assert(pd_channel(a.z as int, a.z as int) == 0) by {
        vstd::arithmetic::div_mod::lemma_basic_div(
            0,
            crate::vec3::smax((vstd::math::abs(a.z as int) as int) + (vstd::math::abs(a.z as int) as int), 1),
        );
    }
}

/// One channel of the percent difference.
fn pd_channel_exec(a: i64, b: i64) -> (r: i64)
    requires
        -COLOR_MAX <= a <= COLOR_MAX,
        -COLOR_MAX <= b <= COLOR_MAX,
    ensures
        r == pd_channel(a as int, b as int),
        0 <= r <= 2000,
{
    let d = if a >= b {
        a - b
    } else {
        b - a
    };
    let ma = if a >= 0 {
        a
    } else {
        -a
    };
    let mb = if b >= 0 {
        b
    } else {
        -b
    };
    let den = if ma + mb < 1 {
        1
    } else {
        ma + mb
    };
    proof {
        assert(d <= den) by {
            assert(vstd::math::abs(a as int - b) <= vstd::math::abs(a as int) + vstd::math::abs(
                b as int,
            ));
        }
        crate::vec3::lemma_mul_bound(2000, d as int, 2000, 2 * COLOR_MAX as int);
        assert(2000 * (d as int) <= 2000 * (den as int)) by (nonlinear_arith)
            requires
                0 <= d <= den,
        ;
        crate::hit::lemma_div_range(2000 * (d as int), den as int, 0, 2000);
    }
    let q = div_floor(2000 * (d as i128), den as i128);
    q as i64
}

/// The exact percent difference of two computed colors.
pub fn percent_diff(a: Vec3, b: Vec3) -> (r: i64)
    requires
        a.bounded(COLOR_MAX as int),
        b.bounded(COLOR_MAX as int),
    ensures
        r == percent_diff_milli(a, b),
        0 <= r <= 2000,
{
    let s = pd_channel_exec(a.x, b.x) + pd_channel_exec(a.y, b.y) + pd_channel_exec(a.z, b.z);
    proof {
        crate::hit::lemma_div_range(s as int, 3, 0, 2000);
    }
    let q = div_floor(s as i128, 3);
    q as i64
}

/// Whether any of the four corner pairs differs beyond the tolerance:
/// the subdivision decision of the adaptive sampler.
pub open spec fn spec_needs_subdivision(c0: Vec3, c1: Vec3, c2: Vec3, c3: Vec3, tol: int) -> bool {
    ||| percent_diff_milli(c0, c1) > tol
    ||| percent_diff_milli(c0, c2) > tol
    ||| percent_diff_milli(c3, c1) > tol
    ||| percent_diff_milli(c3, c2) > tol
}

pub fn needs_subdivision(c0: Vec3, c1: Vec3, c2: Vec3, c3: Vec3, tol: i64) -> (r: bool)
    requires
        c0.bounded(COLOR_MAX as int),
        c1.bounded(COLOR_MAX as int),
        c2.bounded(COLOR_MAX as int),
        c3.bounded(COLOR_MAX as int),
    ensures
        r == spec_needs_subdivision(c0, c1, c2, c3, tol as int),
{
    percent_diff(c0, c1) > tol || percent_diff(c0, c2) > tol || percent_diff(c3, c1) > tol
        || percent_diff(c3, c2) > tol
}

/// Four corner samples of one uniform color are never subdivided (for
/// any nonnegative tolerance): the adaptive sampler stops at exactly
/// four samples on a flat cell.
pub proof fn lemma_uniform_cell_not_subdivided(c: Vec3, tol: int)
    requires
        tol >= 0,
    ensures
        !spec_needs_subdivision(c, c, c, c, tol),
{
    lemma_percent_diff_zero(c);
}

/// A cell whose four corner samples come out one identical color is
/// never subdivided (for any nonnegative tolerance): the sampler takes
/// exactly the four corner samples — each a fresh ray or a cache hit —
/// and returns that color.
pub proof fn lemma_uniform_cell_four_samples(
    scene: Scene,
    m: Map<u64, Vec3>,
    tlx: int,
    tly: int,
    dist: int,
    depth: u32,
    max_depth: u32,
    tol: int,
)
    requires
        tol >= 0,
        ({
            let s0 = spec_sample(scene, m, tlx, tly);
            let s1 = spec_sample(scene, s0.3, spec_sat_add(tlx, dist), tly);
            let s2 = spec_sample(scene, s1.3, tlx, spec_sat_sub(tly, dist));
            let s3 = spec_sample(scene, s2.3, spec_sat_add(tlx, dist), spec_sat_sub(tly, dist));
            s0.0 == s1.0 && s1.0 == s2.0 && s2.0 == s3.0
        }),
    ensures
        ({
            let s0 = spec_sample(scene, m, tlx, tly);
            let r = spec_supersample(scene, m, tlx, tly, dist, depth, max_depth, tol);
            r.0 + r.1 == 4 && r.2 == s0.0
        }),
{
    let s0 = spec_sample(scene, m, tlx, tly);
    let c = s0.0;
    lemma_uniform_cell_not_subdivided(c, tol);
    let r = spec_supersample(scene, m, tlx, tly, dist, depth, max_depth, tol);
    assert(r.2.x == avg4(c.x as int, c.x as int, c.x as int, c.x as int) as i64);
    assert(avg4(c.x as int, c.x as int, c.x as int, c.x as int) == c.x) by {
        vstd::arithmetic::div_mod::lemma_div_multiples_vanish(c.x as int, 4);
        assert(c.x as int + c.x + c.x + c.x == 4 * (c.x as int));
    }
    assert(avg4(c.y as int, c.y as int, c.y as int, c.y as int) == c.y) by {
        vstd::arithmetic::div_mod::lemma_div_multiples_vanish(c.y as int, 4);
        assert(c.y as int + c.y + c.y + c.y == 4 * (c.y as int));
    }
    assert(avg4(c.z as int, c.z as int, c.z as int, c.z as int) == c.z) by {
        vstd::arithmetic::div_mod::lemma_div_multiples_vanish(c.z as int, 4);
        assert(c.z as int + c.z + c.z + c.z == 4 * (c.z as int));
    }
}

/// The channelwise average of four colors, rounded down.
pub open spec fn avg4(a: int, b: int, c: int, d: int) -> int {
    (a + b + c + d) / 4
}

fn avg4_exec(a: i64, b: i64, c: i64, d: i64) -> (r: i64)
    requires
        -COLOR_MAX <= a <= COLOR_MAX,
        -COLOR_MAX <= b <= COLOR_MAX,
        -COLOR_MAX <= c <= COLOR_MAX,
        -COLOR_MAX <= d <= COLOR_MAX,
    ensures
        r == avg4(a as int, b as int, c as int, d as int),
        -COLOR_MAX <= r <= COLOR_MAX,
{
    proof {
        crate::hit::lemma_div_range(
            a as int + b + c + d,
            4,
            -(COLOR_MAX as int),
            COLOR_MAX as int,
        );
    }
    let q = div_floor((a as i128) + (b as i128) + (c as i128) + (d as i128), 4);
    q as i64
}

/// A grid index as a pixel-plane coordinate, as a value:
/// `v * 65536 / n` rounded down.
pub open spec fn spec_plane_coord(v: int, n: int) -> int {
    (v * PLANE_ONE) / n
}

/// The color of one pixel-plane coordinate, as a value: the camera ray
/// resolved through the scene.
pub open spec fn spec_pixel(scene: Scene, x: int, y: int) -> Vec3 {
    scene.spec_color(scene.main_camera.spec_ray(x, y), 0)
}

/// One cached sample, as a value: the color, the fresh-ray count, the
/// cache-hit count, and the cache afterwards.
pub open spec fn spec_sample(scene: Scene, m: Map<u64, Vec3>, x: int, y: int) -> (
    Vec3,
    int,
    int,
    Map<u64, Vec3>,
) {
    let k = spec_key(x, y) as u64;
    if m.contains_key(k) {
        (m[k], 0, 1, m)
    } else {
        let c = spec_pixel(scene, x, y);
        (c, 1, 0, m.insert(k, c))
    }
}

/// Saturating plane-coordinate addition, as a value.
pub open spec fn spec_sat_add(a: int, b: int) -> int {
    if a + b <= PLANE_ONE {
        a + b
    } else {
        PLANE_ONE as int
    }
}

/// Saturating plane-coordinate subtraction, as a value.
pub open spec fn spec_sat_sub(a: int, b: int) -> int {
    if a >= b {
        a - b
    } else {
        0
    }
}

/// Saturating counter addition, as a value.
pub open spec fn spec_cap_add(a: int, b: int) -> int {
    if a + b <= COUNT_CAP {
        a + b
    } else {
        COUNT_CAP as int
    }
}

/// The adaptive sampler, as a value: the four corners sampled through
/// the cache; when the corner colors disagree beyond the tolerance and
/// depth remains, each corner is replaced by its subquadrant's result;
/// the cell's color is the average of the four, and the counters
/// accumulate saturating at the cap.
pub open spec fn spec_supersample(
    scene: Scene,
    m: Map<u64, Vec3>,
    tlx: int,
    tly: int,
    dist: int,
    depth: u32,
    max_depth: u32,
    tol: int,
) -> (int, int, Vec3, Map<u64, Vec3>)
    decreases (max_depth - depth) as int,
{
    let x1 = spec_sat_add(tlx, dist);
    let y1 = spec_sat_sub(tly, dist);
    let s0 = spec_sample(scene, m, tlx, tly);
    let s1 = spec_sample(scene, s0.3, x1, tly);
    let s2 = spec_sample(scene, s1.3, tlx, y1);
    let s3 = spec_sample(scene, s2.3, x1, y1);
    let rays = spec_cap_add(spec_cap_add(s0.1, s1.1), spec_cap_add(s2.1, s3.1));
    let hits = spec_cap_add(spec_cap_add(s0.2, s1.2), spec_cap_add(s2.2, s3.2));
    if depth < max_depth && spec_needs_subdivision(s0.0, s1.0, s2.0, s3.0, tol) {
        let nd = dist / 2;
        let r0 = spec_supersample(scene, s3.3, tlx, tly, nd, (depth + 1) as u32, max_depth, tol);
        let r1 = spec_supersample(
            scene,
            r0.3,
            spec_sat_add(tlx, nd),
            tly,
            nd,
            (depth + 1) as u32,
            max_depth,
            tol,
        );
        let r2 = spec_supersample(
            scene,
            r1.3,
            tlx,
            spec_sat_sub(tly, nd),
            nd,
            (depth + 1) as u32,
            max_depth,
            tol,
        );
        let r3 = spec_supersample(
            scene,
            r2.3,
            spec_sat_add(tlx, nd),
            spec_sat_sub(tly, nd),
            nd,
            (depth + 1) as u32,
            max_depth,
            tol,
        );
        let rays2 = spec_cap_add(spec_cap_add(spec_cap_add(spec_cap_add(rays, r0.0), r1.0), r2.0), r3.0);
        let hits2 = spec_cap_add(spec_cap_add(spec_cap_add(spec_cap_add(hits, r0.1), r1.1), r2.1), r3.1);
        (
            rays2,
            hits2,
            Vec3 {
                x: avg4(r0.2.x as int, r1.2.x as int, r2.2.x as int, r3.2.x as int) as i64,
                y: avg4(r0.2.y as int, r1.2.y as int, r2.2.y as int, r3.2.y as int) as i64,
                z: avg4(r0.2.z as int, r1.2.z as int, r2.2.z as int, r3.2.z as int) as i64,
            },
            r3.3,
        )
    } else {
        (
            rays,
            hits,
            Vec3 {
                x: avg4(s0.0.x as int, s1.0.x as int, s2.0.x as int, s3.0.x as int) as i64,
                y: avg4(s0.0.y as int, s1.0.y as int, s2.0.y as int, s3.0.y as int) as i64,
                z: avg4(s0.0.z as int, s1.0.z as int, s2.0.z as int, s3.0.z as int) as i64,
            },
            s3.3,
        )
    }
}

impl Scene {
    /// One cached sample: the color at a pixel-plane coordinate, fetched
    /// from the cache when that exact coordinate was computed before in
    /// this frame, cast and memoized otherwise.  Querying the same
    /// coordinate twice therefore casts exactly one ray.
    pub fn sample_point(&self, cache: &mut HashMap<u64, Vec3>, x: u32, y: u32) -> (r: (
        Vec3,
        u64,
        u64,
    ))
        requires
            self.wf(),
            x <= PLANE_ONE,
            y <= PLANE_ONE,
            forall|k: u64| #[trigger] old(cache)@.contains_key(k) ==> old(cache)@[k].bounded(
                COLOR_MAX as int,
            ),
        ensures
            (r.0, r.1 as int, r.2 as int, final(cache)@) == spec_sample(
                *self,
                old(cache)@,
                x as int,
                y as int,
            ),
            r.0.bounded(COLOR_MAX as int),
            old(cache)@.contains_key(spec_key(x as int, y as int) as u64) ==> {
                &&& r.1 == 0
                &&& r.2 == 1
                &&& final(cache)@ == old(cache)@
                &&& r.0 == old(cache)@[spec_key(x as int, y as int) as u64]
            },
            !old(cache)@.contains_key(spec_key(x as int, y as int) as u64) ==> {
                &&& r.1 == 1
                &&& r.2 == 0
                &&& final(cache)@ == old(cache)@.insert(spec_key(x as int, y as int) as u64, r.0)
            },
            forall|k: u64| old(cache)@.contains_key(k) ==> #[trigger] final(cache)@.contains_key(k)
                && final(cache)@[k] == old(cache)@[k],
            r.1 + r.2 == 1,
            forall|k: u64| #[trigger] final(cache)@.contains_key(k) ==> final(cache)@[k].bounded(
                COLOR_MAX as int,
            ),
    {
        let key = cache_key(x, y);
        if cache.contains_key(&key) {
            let c = *cache.get(&key).unwrap();
            (c, 0, 1)
        } else {
            let c = self.get_color_at_pixel(x, y);
            cache.insert(key, c);
            (c, 1, 0)
        }
    }

    /// Adaptive supersampling of one cell: sample the four corners
    /// through the cache, and while the corner colors disagree beyond
    /// the tolerance and depth remains, replace each corner with the
    /// averaged result of its subquadrant; the cell's color is the
    /// average of the four (possibly refined) corners.  Returns the
    /// count of fresh rays, the count of cache hits, and the color.
    #[verifier::rlimit(80)]
    pub fn supersample_recurse(
        &self,
        cache: &mut HashMap<u64, Vec3>,
        top_left: (u32, u32),
        corner_distance: u32,
        depth: u32,
        max_depth: u32,
        tolerance: i64,
    ) -> (r: (u64, u64, Vec3))
        requires
            self.wf(),
            top_left.0 <= PLANE_ONE,
            top_left.1 <= PLANE_ONE,
            corner_distance <= PLANE_ONE,
            max_depth <= 16,
            forall|k: u64| #[trigger] old(cache)@.contains_key(k) ==> old(cache)@[k].bounded(
                COLOR_MAX as int,
            ),
        ensures
            (r.0 as int, r.1 as int, r.2, final(cache)@) == spec_supersample(
                *self,
                old(cache)@,
                top_left.0 as int,
                top_left.1 as int,
                corner_distance as int,
                depth,
                max_depth,
                tolerance as int,
            ),
            r.2.bounded(COLOR_MAX as int),
            forall|k: u64| #[trigger] final(cache)@.contains_key(k) ==> final(cache)@[k].bounded(
                COLOR_MAX as int,
            ),
            forall|k: u64| old(cache)@.contains_key(k) ==> #[trigger] final(cache)@.contains_key(k),
            4 <= r.0 + r.1,
            r.0 <= COUNT_CAP && r.1 <= COUNT_CAP,
        decreases (max_depth - depth) as int,
    {
        let x1 = saturating_add(top_left.0, corner_distance);
        let y1 = saturating_sub(top_left.1, corner_distance);
        let (c0, r0, h0) = self.sample_point(cache, top_left.0, top_left.1);
        let (c1, r1, h1) = self.sample_point(cache, x1, top_left.1);
        let (c2, r2, h2) = self.sample_point(cache, top_left.0, y1);
        let (c3, r3, h3) = self.sample_point(cache, x1, y1);
        let mut rays: u64 = cap_add(cap_add(r0, r1), cap_add(r2, r3));
        let mut hits: u64 = cap_add(cap_add(h0, h1), cap_add(h2, h3));
        let mut k0 = c0;
        let mut k1 = c1;
        let mut k2 = c2;
        let mut k3 = c3;
        if depth < max_depth && needs_subdivision(c0, c1, c2, c3, tolerance) {
            let nd = corner_distance / 2;
            let (ra, ha, ca) = self.supersample_recurse(
                cache,
                top_left,
                nd,
                depth + 1,
                max_depth,
                tolerance,
            );
            rays = cap_add(rays, ra);
            hits = cap_add(hits, ha);
            k0 = ca;
            let (rb, hb, cb) = self.supersample_recurse(
                cache,
                (saturating_add(top_left.0, nd), top_left.1),
                nd,
                depth + 1,
                max_depth,
                tolerance,
            );
            rays = cap_add(rays, rb);
            hits = cap_add(hits, hb);
            k1 = cb;
            let (rc, hc, cc) = self.supersample_recurse(
                cache,
                (top_left.0, saturating_sub(top_left.1, nd)),
                nd,
                depth + 1,
                max_depth,
                tolerance,
            );
            rays = cap_add(rays, rc);
            hits = cap_add(hits, hc);
            k2 = cc;
            let (rd, hd, cd) = self.supersample_recurse(
                cache,
                (saturating_add(top_left.0, nd), saturating_sub(top_left.1, nd)),
                nd,
                depth + 1,
                max_depth,
                tolerance,
            );
            rays = cap_add(rays, rd);
            hits = cap_add(hits, hd);
            k3 = cd;
        }
        let color = Vec3 {
            x: avg4_exec(k0.x, k1.x, k2.x, k3.x),
            y: avg4_exec(k0.y, k1.y, k2.y, k3.y),
            z: avg4_exec(k0.z, k1.z, k2.z, k3.z),
        };
        (rays, hits, color)
    }

    /// Render the whole frame, one primary ray per pixel, rows from the
    /// top of the image down, pixels left to right.
    pub fn render_frame(&mut self) -> (r: Vec<Vec3>)
        requires
            old(self).wf(),
            old(self).render_resolution.0 >= 1,
            old(self).render_resolution.1 >= 1,
            old(self).render_resolution.0 <= 4096,
            old(self).render_resolution.1 <= 4096,
        ensures
            final(self).wf(),
            r@.len() == old(self).render_resolution.0 * old(self).render_resolution.1,
            forall|a: int, b: int|
                0 <= a < final(self).render_resolution.1 && 0 <= b
                    < final(self).render_resolution.0 ==> #[trigger] r@[a
                    * final(self).render_resolution.0 + b] == spec_pixel(
                    *final(self),
                    spec_plane_coord(b, final(self).render_resolution.0 as int),
                    spec_plane_coord(
                        final(self).render_resolution.1 - 1 - a,
                        final(self).render_resolution.1 as int,
                    ),
                ),
            forall|i: int| 0 <= i < r@.len() ==> (#[trigger] r@[i]).bounded(COLOR_MAX as int),
    {
        self.build_acceleration();
        let w = self.render_resolution.0;
        let h = self.render_resolution.1;
        let mut pixels: Vec<Vec3> = Vec::new();
        let mut done: u32 = 0;
        while done < h
            invariant
                done <= h,
                1 <= w <= 4096,
                1 <= h <= 4096,
                self.wf(),
                w == self.render_resolution.0,
                h == self.render_resolution.1,
                pixels@.len() == done * w,
                forall|a: int, b: int|
                    0 <= a < done && 0 <= b < w ==> #[trigger] pixels@[a * w + b] == spec_pixel(
                        *self,
                        spec_plane_coord(b, w as int),
                        spec_plane_coord(h - 1 - a, h as int),
                    ),
                forall|i: int|
                    0 <= i < pixels@.len() ==> (#[trigger] pixels@[i]).bounded(COLOR_MAX as int),
            decreases h - done,
        {
            let i = h - 1 - done;
            let mut row = self.render_row(i);
            let ghost before = pixels@.len();
            let ghost prev = pixels@;
            let mut t: usize = 0;
            let rn = row.len();
            while t < rn
                invariant
                    t <= rn,
                    rn == row@.len(),
                    pixels@.len() == before + t,
                    pixels@.subrange(0, before as int) == prev,
                    forall|q: int| 0 <= q < t ==> #[trigger] pixels@[before + q] == row@[q],
                    forall|q: int|
                        0 <= q < row@.len() ==> (#[trigger] row@[q]).bounded(COLOR_MAX as int),
                    forall|i: int|
                        0 <= i < pixels@.len() ==> (#[trigger] pixels@[i]).bounded(
                            COLOR_MAX as int,
                        ),
                decreases rn - t,
            {
                pixels.push(row[t]);
                t = t + 1;
                proof {
                    assert(pixels@.subrange(0, before as int) =~= prev);
                }
            }
            proof {
                assert(pixels@.len() == before + rn);
            }
            done = done + 1;
            proof {
                assert(pixels@.len() == done * w) by (nonlinear_arith)
                    requires
                        pixels@.len() == (done - 1) * w + w,
                ;
                assert forall|a: int, b: int| 0 <= a < done && 0 <= b < w implies #[trigger] pixels@[a
                    * w + b] == spec_pixel(
                    *self,
                    spec_plane_coord(b, w as int),
                    spec_plane_coord(h - 1 - a, h as int),
                ) by {
                    if a < done - 1 {
                        assert(0 <= a * w + b < before) by (nonlinear_arith)
                            requires
                                0 <= a <= done - 2,
                                0 <= b < w,
                                before == (done - 1) * (w as int),
                                w >= 1,
                        ;
                        assert(pixels@[a * w + b] == prev[a * w + b]);
                    } else {
                        assert(a == done - 1);
                        assert(a * w + b == before + b) by (nonlinear_arith)
                            requires
                                a == done - 1,
                                before == (done - 1) * (w as int),
                        ;
                        assert(pixels@[before + b] == row@[b]);
                    }
                }
            }
        }
        proof {
            assert(pixels@.len() == h * w);
            assert(h * w == w * h) by (nonlinear_arith);
        }
        pixels
    }

    /// The colors of one image row, left to right, for the row index
    /// counted from the bottom of the image as the ray geometry sees it.
    pub fn render_row(&self, i: u32) -> (r: Vec<Vec3>)
        requires
            self.wf(),
            1 <= self.render_resolution.0 <= 4096,
            i < self.render_resolution.1,
            self.render_resolution.1 <= 4096,
        ensures
            r@.len() == self.render_resolution.0,
            forall|q: int|
                0 <= q < r@.len() ==> #[trigger] r@[q] == spec_pixel(
                    *self,
                    spec_plane_coord(q, self.render_resolution.0 as int),
                    spec_plane_coord(i as int, self.render_resolution.1 as int),
                ),
            forall|q: int| 0 <= q < r@.len() ==> (#[trigger] r@[q]).bounded(COLOR_MAX as int),
    {
        let w = self.render_resolution.0;
        let h = self.render_resolution.1;
        let mut row: Vec<Vec3> = Vec::new();
        let mut j: u32 = 0;
        while j < w
            invariant
                j <= w,
                1 <= w <= 4096,
                1 <= h <= 4096,
                i < h,
                self.wf(),
                w == self.render_resolution.0,
                h == self.render_resolution.1,
                row@.len() == j,
                forall|q: int|
                    0 <= q < row@.len() ==> #[trigger] row@[q] == spec_pixel(
                        *self,
                        spec_plane_coord(q, w as int),
                        spec_plane_coord(i as int, h as int),
                    ),
                forall|q: int| 0 <= q < row@.len() ==> (#[trigger] row@[q]).bounded(COLOR_MAX as int),
            decreases w - j,
        {
            let px = plane_coord(j, w);
            let py = plane_coord(i, h);
            let c = self.get_color_at_pixel(px, py);
            row.push(c);
            j = j + 1;
        }
        row
    }

    /// Render the frame with adaptive supersampling; returns the pixel
    /// colors and a heatmap of samples taken per pixel.
    pub fn render_supersample_frame(&mut self, tolerance: i64) -> (r: (Vec<Vec3>, Vec<Vec3>))
        requires
            old(self).wf(),
            1 <= old(self).render_resolution.0 <= 4096,
            1 <= old(self).render_resolution.1 <= 4096,
        ensures
            final(self).wf(),
            r.0@.len() == old(self).render_resolution.0 * old(self).render_resolution.1,
            r.1@.len() == r.0@.len(),
            (r.0@, r.1@) == {
                let full = spec_ss_acc(
                    *final(self),
                    final(self).render_resolution.1 as int
                        * final(self).render_resolution.0 as int,
                    final(self).render_resolution.0 as int,
                    final(self).render_resolution.1 as int,
                    tolerance as int,
                );
                (full.0, full.1)
            },
    {
        self.build_acceleration();
        let w = self.render_resolution.0;
        let h = self.render_resolution.1;
        let mut cache: HashMap<u64, Vec3> = HashMap::new();
        let mut pixels: Vec<Vec3> = Vec::new();
        let mut heat: Vec<Vec3> = Vec::new();
        let mut done: u32 = 0;
        proof {
            assert(pixels@ =~= Seq::<Vec3>::empty());
            assert(heat@ =~= Seq::<Vec3>::empty());
            assert(cache@ =~= Map::<u64, Vec3>::empty());
        }
        while done < h
            invariant
                done <= h,
                1 <= w <= 4096,
                1 <= h <= 4096,
                self.wf(),
                w == self.render_resolution.0,
                h == self.render_resolution.1,
                pixels@.len() == done * w,
                heat@.len() == done * w,
                (pixels@, heat@, cache@) == spec_ss_acc(
                    *self,
                    done as int * w,
                    w as int,
                    h as int,
                    tolerance as int,
                ),
                forall|k: u64| #[trigger] cache@.contains_key(k) ==> cache@[k].bounded(
                    COLOR_MAX as int,
                ),
            decreases h - done,
        {
            let i = h - 1 - done;
            let mut j: u32 = 0;
            let ghost before = pixels@.len();
            while j < w
                invariant
                    j <= w,
                    1 <= w <= 4096,
                    1 <= h <= 4096,
                    i < h,
                    done < h,
                    i == h - 1 - done,
                    self.wf(),
                    w == self.render_resolution.0,
                    h == self.render_resolution.1,
                    before == done * w,
                    pixels@.len() == before + j,
                    heat@.len() == before + j,
                    (pixels@, heat@, cache@) == spec_ss_acc(
                        *self,
                        done as int * w + j,
                        w as int,
                        h as int,
                        tolerance as int,
                    ),
                    forall|k: u64| #[trigger] cache@.contains_key(k) ==> cache@[k].bounded(
                        COLOR_MAX as int,
                    ),
                decreases w - j,
            {
                let px = plane_coord(j, w);
                let py = plane_coord(i, h);
                let ps = PLANE_ONE / w;
                let (rays, hits, color) = self.supersample_recurse(
                    &mut cache,
                    (px, py),
                    saturating_cap(2 * ps),
                    0,
                    2,
                    tolerance,
                );
                pixels.push(color);
                let total = cap_add(rays, hits);
                let t64 = if total > 0x7FFF_FFFF {
                    0x7FFF_FFFFi64
                } else {
                    total as i64
                };
                heat.push(Vec3 { x: t64, y: t64, z: t64 });
                j = j + 1;
                proof {
                    let n = done as int * w + j;
                    vstd::arithmetic::div_mod::lemma_fundamental_div_mod_converse(
                        n - 1,
                        w as int,
                        done as int,
                        j as int - 1,
                    );
                    assert((n - 1) / (w as int) == done as int && (n - 1) % (w as int) == j - 1);
                }
            }
            done = done + 1;
            proof {
                assert(done as int * w == (done - 1) as int * w + w) by (nonlinear_arith);
                assert(pixels@.len() == done * w) by (nonlinear_arith)
                    requires
                        pixels@.len() == (done - 1) * w + w,
                ;
                assert(heat@.len() == done * w) by (nonlinear_arith)
                    requires
                        heat@.len() == (done - 1) * w + w,
                ;
            }
        }
        proof {
            assert(h * w == w * h) by (nonlinear_arith);
        }
        (pixels, heat)
    }
}

/// Saturating cap of a plane distance, as a value.
pub open spec fn spec_sat_cap(a: int) -> int {
    if a <= PLANE_ONE {
        a
    } else {
        PLANE_ONE as int
    }
}

/// The heatmap entry for a cell's sample counts: the (saturating) total
/// replicated over the channels, capped into `i32` range.
pub open spec fn spec_heat(rays: int, hits: int) -> Vec3 {
    let t = spec_cap_add(rays, hits);
    let t64 = if t > 0x7FFF_FFFF {
        0x7FFF_FFFFint
    } else {
        t
    };
    Vec3 { x: t64 as i64, y: t64 as i64, z: t64 as i64 }
}

/// The supersampled frame after its first `n` pixels, as a value: the
/// pixel colors, the heatmap, and the sample cache threaded through
/// every cell, rows from the top of the image down, pixels left to
/// right.
pub open spec fn spec_ss_acc(scene: Scene, n: int, w: int, h: int, tol: int) -> (
    Seq<Vec3>,
    Seq<Vec3>,
    Map<u64, Vec3>,
)
    decreases n,
{
    if n <= 0 {
        (Seq::empty(), Seq::empty(), Map::empty())
    } else {
        let prev = spec_ss_acc(scene, n - 1, w, h, tol);
        let a = (n - 1) / w;
        let b = (n - 1) % w;
        let i = h - 1 - a;
        let px = spec_plane_coord(b, w);
        let py = spec_plane_coord(i, h);
        let dist = spec_sat_cap(2 * (PLANE_ONE as int / w));
        let r = spec_supersample(scene, prev.2, px, py, dist, 0, 2, tol);
        (prev.0.push(r.2), prev.1.push(spec_heat(r.0, r.1)), r.3)
    }
}

/// Channelwise sum of `k` consecutive pixels starting at `start`.
pub open spec fn row_sum(pix: Seq<Vec3>, start: int, k: int) -> (int, int, int)
    decreases k,
{
    if k <= 0 {
        (0, 0, 0)
    } else {
        let p = row_sum(pix, start, k - 1);
        let c = pix[start + k - 1];
        (p.0 + c.x, p.1 + c.y, p.2 + c.z)
    }
}

/// Channelwise sum of a `rows` by `sq` block of pixels starting at
/// `base` in a row-major frame of width `w`.
pub open spec fn block_sum(pix: Seq<Vec3>, w: int, base: int, sq: int, rows: int) -> (
    int,
    int,
    int,
)
    decreases rows,
{
    if rows <= 0 {
        (0, 0, 0)
    } else {
        let p = block_sum(pix, w, base, sq, rows - 1);
        let r = row_sum(pix, base + (rows - 1) * w, sq);
        (p.0 + r.0, p.1 + r.1, p.2 + r.2)
    }
}

/// Box-downsample a frame: average each `sq` by `sq` block of pixels
/// into one output pixel, where `sq` is the square root of `samples` and
/// blocks run row-major.  When `samples` is not a perfect square, or
/// either image dimension is not divisible by `sq`, the result is empty
/// — exactly and only then.
pub fn supersample(pixels: &Vec<Vec3>, resolution: (u32, u32), samples: u32) -> (r: Vec<Vec3>)
    requires
        pixels@.len() == resolution.0 * resolution.1,
        1 <= resolution.0 <= 4096,
        1 <= resolution.1 <= 4096,
        1 <= samples,
        forall|i: int| 0 <= i < pixels@.len() ==> (#[trigger] pixels@[i]).bounded(COLOR_MAX as int),
    ensures
        ({
            let sq = crate::rat::sqrt_floor(samples as int);
            if sq * sq == samples && resolution.0 as int % sq == 0 && resolution.1 as int % sq
                == 0 {
                r@.len() == (resolution.0 as int / sq) * (resolution.1 as int / sq)
            } else {
                r@.len() == 0
            }
        }),
        ({
            let sq = crate::rat::sqrt_floor(samples as int);
            let bw = resolution.0 as int / sq;
            forall|bi: int, bj: int|
                0 <= bi && 0 <= bj < bw && bi * bw + bj < r@.len() ==> #[trigger] r@[bi * bw + bj]
                    == (Vec3 {
                    x: (block_sum(pixels@, resolution.0 as int, (bi * sq) * resolution.0 + bj
                        * sq, sq, sq).0 / samples as int) as i64,
                    y: (block_sum(pixels@, resolution.0 as int, (bi * sq) * resolution.0 + bj
                        * sq, sq, sq).1 / samples as int) as i64,
                    z: (block_sum(pixels@, resolution.0 as int, (bi * sq) * resolution.0 + bj
                        * sq, sq, sq).2 / samples as int) as i64,
                })
        }),
        forall|i: int| 0 <= i < r@.len() ==> (#[trigger] r@[i]).bounded(COLOR_MAX as int),
{
    let w = resolution.0;
    let h = resolution.1;
    let sq128 = crate::rat::isqrt(samples as i128);
    proof {
        assert(sq128 <= 0xFFFF) by (nonlinear_arith)
            requires
                crate::rat::is_isqrt(samples as int, sq128 as int),
                samples <= 0xFFFF_FFFF,
        ;
        assert(sq128 >= 1) by (nonlinear_arith)
            requires
                crate::rat::is_isqrt(samples as int, sq128 as int),
                samples >= 1,
        ;
    }
    let sq = sq128 as u32;
    proof {
        assert(sq as int == crate::rat::sqrt_floor(samples as int));
        crate::vec3::lemma_mul_bound(sq as int, sq as int, 0xFFFF, 0xFFFF);
    }
    if sq * sq != samples || w % sq != 0 || h % sq != 0 {
        return Vec::new();
    }
    let bw = w / sq;
    let bh = h / sq;
    proof {
        vstd::arithmetic::div_mod::lemma_fundamental_div_mod(w as int, sq as int);
        vstd::arithmetic::div_mod::lemma_fundamental_div_mod(h as int, sq as int);
        assert(bw as int * (sq as int) == w) by (nonlinear_arith)
            requires
                w as int == (sq as int) * (w as int / (sq as int)) + (w as int % (sq as int)),
                w as int % (sq as int) == 0,
                bw as int == w as int / (sq as int),
        ;
        assert(bh as int * (sq as int) == h) by (nonlinear_arith)
            requires
                h as int == (sq as int) * (h as int / (sq as int)) + (h as int % (sq as int)),
                h as int % (sq as int) == 0,
                bh as int == h as int / (sq as int),
        ;
    }
    let mut out: Vec<Vec3> = Vec::new();
    let mut bi: u32 = 0;
    while bi < bh
        invariant
            bi <= bh,
            1 <= sq <= 0x10000,
            1 <= w <= 4096,
            1 <= h <= 4096,
            samples as int == (sq as int) * (sq as int),
            bw as int * (sq as int) == w,
            bh as int * (sq as int) == h,
            pixels@.len() == w * h,
            forall|i: int|
                0 <= i < pixels@.len() ==> (#[trigger] pixels@[i]).bounded(COLOR_MAX as int),
            out@.len() == bi * bw,
            forall|a: int, b: int|
                0 <= a && 0 <= b < bw && a * bw + b < out@.len() ==> #[trigger] out@[a * bw + b]
                    == (Vec3 {
                    x: (block_sum(pixels@, w as int, (a * sq) * w + b * sq, sq as int,
                    sq as int).0 / samples as int) as i64,
                    y: (block_sum(pixels@, w as int, (a * sq) * w + b * sq, sq as int,
                    sq as int).1 / samples as int) as i64,
                    z: (block_sum(pixels@, w as int, (a * sq) * w + b * sq, sq as int,
                    sq as int).2 / samples as int) as i64,
                }),
            forall|i: int| 0 <= i < out@.len() ==> (#[trigger] out@[i]).bounded(COLOR_MAX as int),
        decreases bh - bi,
    {
        let mut bj: u32 = 0;
        let ghost row_start = out@.len();
        let ghost prev_out = out@;
        while bj < bw
            invariant
                bj <= bw,
                bi < bh,
                1 <= sq <= 0x10000,
                1 <= w <= 4096,
                1 <= h <= 4096,
                samples as int == (sq as int) * (sq as int),
                bw as int * (sq as int) == w,
                bh as int * (sq as int) == h,
                pixels@.len() == w * h,
                forall|i: int|
                    0 <= i < pixels@.len() ==> (#[trigger] pixels@[i]).bounded(COLOR_MAX as int),
                out@.len() == row_start + bj,
                row_start == bi * bw,
                out@.subrange(0, row_start as int) == prev_out,
                forall|a: int, b: int|
                    0 <= a && 0 <= b < bw && a * bw + b < out@.len() ==> #[trigger] out@[a * bw
                        + b] == (Vec3 {
                        x: (block_sum(pixels@, w as int, (a * sq) * w + b * sq, sq as int,
                        sq as int).0 / samples as int) as i64,
                        y: (block_sum(pixels@, w as int, (a * sq) * w + b * sq, sq as int,
                        sq as int).1 / samples as int) as i64,
                        z: (block_sum(pixels@, w as int, (a * sq) * w + b * sq, sq as int,
                        sq as int).2 / samples as int) as i64,
                    }),
                forall|i: int|
                    0 <= i < out@.len() ==> (#[trigger] out@[i]).bounded(COLOR_MAX as int),
            decreases bw - bj,
        {
            let mut sx: i128 = 0;
            let mut sy: i128 = 0;
            let mut sz: i128 = 0;
            let ghost mut cnt: int = 0;
            let mut s1: u32 = 0;
            while s1 < sq
                invariant
                    s1 <= sq,
                    bi < bh,
                    bj < bw,
                    1 <= sq <= 0x10000,
                    1 <= w <= 4096,
                    1 <= h <= 4096,
                    samples as int == (sq as int) * (sq as int),
                    bw as int * (sq as int) == w,
                    bh as int * (sq as int) == h,
                    pixels@.len() == w * h,
                    forall|i: int|
                        0 <= i < pixels@.len() ==> (#[trigger] pixels@[i]).bounded(
                            COLOR_MAX as int,
                        ),
                    cnt == (s1 as int) * (sq as int),
                    0 <= cnt <= samples,
                    (sx as int, sy as int, sz as int) == block_sum(
                        pixels@,
                        w as int,
                        (bi as int * sq) * w + bj as int * sq,
                        sq as int,
                        s1 as int,
                    ),
                    -(COLOR_MAX as int) * cnt <= sx <= (COLOR_MAX as int) * cnt,
                    -(COLOR_MAX as int) * cnt <= sy <= (COLOR_MAX as int) * cnt,
                    -(COLOR_MAX as int) * cnt <= sz <= (COLOR_MAX as int) * cnt,
                decreases sq - s1,
            {
                let mut s2: u32 = 0;
                while s2 < sq
                    invariant
                        s2 <= sq,
                        s1 < sq,
                        bi < bh,
                        bj < bw,
                        1 <= sq <= 0x10000,
                        1 <= w <= 4096,
                        1 <= h <= 4096,
                        samples as int == (sq as int) * (sq as int),
                        bw as int * (sq as int) == w,
                        bh as int * (sq as int) == h,
                        pixels@.len() == w * h,
                        forall|i: int|
                            0 <= i < pixels@.len() ==> (#[trigger] pixels@[i]).bounded(
                                COLOR_MAX as int,
                            ),
                        cnt == (s1 as int) * (sq as int) + s2 as int,
                        0 <= cnt <= samples,
                        ({
                            let base = (bi as int * sq) * w + bj as int * sq;
                            let b = block_sum(pixels@, w as int, base, sq as int, s1 as int);
                            let rs = row_sum(pixels@, base + (s1 as int) * w, s2 as int);
                            (sx as int, sy as int, sz as int) == (b.0 + rs.0, b.1 + rs.1, b.2
                                + rs.2)
                        }),
                        -(COLOR_MAX as int) * cnt <= sx <= (COLOR_MAX as int) * cnt,
                        -(COLOR_MAX as int) * cnt <= sy <= (COLOR_MAX as int) * cnt,
                        -(COLOR_MAX as int) * cnt <= sz <= (COLOR_MAX as int) * cnt,
                    decreases sq - s2,
                {
                    proof {
                        lemma_block_index(
                            bi as int,
                            bj as int,
                            s1 as int,
                            s2 as int,
                            sq as int,
                            w as int,
                            h as int,
                            bw as int,
                            bh as int,
                        );
                        lemma_sum_step(s1 as int, s2 as int + 1, sq as int);
                        assert(-(COLOR_MAX as int) * 0x1_0000_0000 <= sx <= (COLOR_MAX as int)
                            * 0x1_0000_0000) by (nonlinear_arith)
                            requires
                                0 <= cnt <= 0x1_0000_0000,
                                -(COLOR_MAX as int) * cnt <= sx <= (COLOR_MAX as int) * cnt,
                        ;
                        assert(-(COLOR_MAX as int) * 0x1_0000_0000 <= sy <= (COLOR_MAX as int)
                            * 0x1_0000_0000) by (nonlinear_arith)
                            requires
                                0 <= cnt <= 0x1_0000_0000,
                                -(COLOR_MAX as int) * cnt <= sy <= (COLOR_MAX as int) * cnt,
                        ;
                        assert(-(COLOR_MAX as int) * 0x1_0000_0000 <= sz <= (COLOR_MAX as int)
                            * 0x1_0000_0000) by (nonlinear_arith)
                            requires
                                0 <= cnt <= 0x1_0000_0000,
                                -(COLOR_MAX as int) * cnt <= sz <= (COLOR_MAX as int) * cnt,
                        ;
                    }
                    let row = bi * sq + s1;
                    let col = bj * sq + s2;
                    let idx = (row as usize) * (w as usize) + (col as usize);
                    proof {
                        assert((row as int) * w + col == ((bi as int * sq) * w + bj as int * sq)
                            + (s1 as int) * w + s2) by (nonlinear_arith)
                            requires
                                row as int == bi as int * sq + s1,
                                col as int == bj as int * sq + s2,
                        ;
                    }
                    let px = pixels[idx];
                    sx = sx + (px.x as i128);
                    sy = sy + (px.y as i128);
                    sz = sz + (px.z as i128);
                    s2 = s2 + 1;
                    proof {
                        cnt = cnt + 1;
                        assert(-(COLOR_MAX as int) * cnt <= sx && sx <= (COLOR_MAX as int) * cnt)
                            by (nonlinear_arith)
                            requires
                                -(COLOR_MAX as int) * (cnt - 1) <= sx - px.x <= (COLOR_MAX as int)
                                    * (cnt - 1),
                                -COLOR_MAX <= px.x <= COLOR_MAX,
                        ;
                        assert(-(COLOR_MAX as int) * cnt <= sy && sy <= (COLOR_MAX as int) * cnt)
                            by (nonlinear_arith)
                            requires
                                -(COLOR_MAX as int) * (cnt - 1) <= sy - px.y <= (COLOR_MAX as int)
                                    * (cnt - 1),
                                -COLOR_MAX <= px.y <= COLOR_MAX,
                        ;
                        assert(-(COLOR_MAX as int) * cnt <= sz && sz <= (COLOR_MAX as int) * cnt)
                            by (nonlinear_arith)
                            requires
                                -(COLOR_MAX as int) * (cnt - 1) <= sz - px.z <= (COLOR_MAX as int)
                                    * (cnt - 1),
                                -COLOR_MAX <= px.z <= COLOR_MAX,
                        ;
                    }
                }
                s1 = s1 + 1;
                proof {
                    assert(cnt == (s1 as int) * (sq as int)) by (nonlinear_arith)
                        requires
                            cnt == (s1 as int - 1) * (sq as int) + sq as int,
                    ;
                }
            }
            proof {
                lemma_block_avg_bounds(sx as int, sq as int, samples as int);
                lemma_block_avg_bounds(sy as int, sq as int, samples as int);
                lemma_block_avg_bounds(sz as int, sq as int, samples as int);
            }
            let ax = div_floor(sx, samples as i128);
            let ay = div_floor(sy, samples as i128);
            let az = div_floor(sz, samples as i128);
            out.push(Vec3 { x: ax as i64, y: ay as i64, z: az as i64 });
            bj = bj + 1;
            proof {
                assert(out@.subrange(0, row_start as int) =~= prev_out);
                assert forall|a: int, b: int|
                    0 <= a && 0 <= b < bw && a * bw + b < out@.len() implies #[trigger] out@[a
                    * bw + b] == (Vec3 {
                    x: (block_sum(pixels@, w as int, (a * sq) * w + b * sq, sq as int,
                    sq as int).0 / samples as int) as i64,
                    y: (block_sum(pixels@, w as int, (a * sq) * w + b * sq, sq as int,
                    sq as int).1 / samples as int) as i64,
                    z: (block_sum(pixels@, w as int, (a * sq) * w + b * sq, sq as int,
                    sq as int).2 / samples as int) as i64,
                }) by {
                    if a * bw + b < out@.len() - 1 {
                        assert(out@[a * bw + b] == out@.subrange(0, out@.len() - 1)[a * bw + b]);
                        assert(out@.subrange(0, out@.len() - 1) =~= out@.drop_last());
                    } else {
                        assert(a * bw + b == out@.len() - 1);
                        assert(a == bi && b == bj - 1) by (nonlinear_arith)
                            requires
                                a * (bw as int) + b == (bi as int) * bw + (bj as int) - 1,
                                0 <= a,
                                0 <= b < bw,
                                0 <= bj as int - 1 < bw,
                                bw >= 1,
                                bi >= 0,
                        ;
                    }
                }
            }
        }
        bi = bi + 1;
        proof {
            assert(out@.len() == bi * bw) by (nonlinear_arith)
                requires
                    out@.len() == (bi - 1) * (bw as int) + bw,
            ;
        }
    }
    proof {
        assert(out@.len() == (bh as int) * (bw as int));
        assert((bh as int) * (bw as int) == (bw as int) * (bh as int)) by (nonlinear_arith);
    }
    out
}

/// The flat index of a pixel inside a block stays inside the frame.
proof fn lemma_block_index(
    bi: int,
    bj: int,
    s1: int,
    s2: int,
    sq: int,
    w: int,
    h: int,
    bw: int,
    bh: int,
)
    by (nonlinear_arith)
    requires
        0 <= bi < bh,
        0 <= bj < bw,
        0 <= s1 < sq,
        0 <= s2 < sq,
        1 <= sq,
        1 <= w <= 4096,
        1 <= h <= 4096,
        bw * sq == w,
        bh * sq == h,
    ensures
        0 <= bi * sq + s1 < h,
        0 <= bj * sq + s2 < w,
        0 <= (bi * sq + s1) * w + (bj * sq + s2) < w * h,
        w * h <= 0x100_0000,
{
}

/// One more pixel keeps the running block count within the sample
/// budget.
proof fn lemma_sum_step(s1: int, s2: int, sq: int)
    by (nonlinear_arith)
    requires
        0 <= s1 < sq,
        1 <= s2 <= sq,
    ensures
        s1 * sq + s2 <= sq * sq,
{
}

/// The block average fits back into a color channel.
proof fn lemma_block_avg_bounds(sum: int, sq: int, samples: int)
    requires
        1 <= sq <= 0x10000,
        samples == sq * sq,
        -(COLOR_MAX as int) * samples <= sum <= (COLOR_MAX as int) * samples,
    ensures
        1 <= samples,
        -(COLOR_MAX as int) <= sum / samples <= COLOR_MAX as int,
{
    assert(1 <= samples) by (nonlinear_arith)
        requires
            samples == sq * sq,
            1 <= sq,
    ;
    crate::hit::lemma_div_range(sum, samples, -(COLOR_MAX as int), COLOR_MAX as int);
}

/// `v * PLANE_ONE / n`: a grid index as a pixel-plane coordinate.
fn plane_coord(v: u32, n: u32) -> (r: u32)
    requires
        1 <= n,
        v < n,
    ensures
        r == (v as int * PLANE_ONE) / (n as int),
        r <= PLANE_ONE,
{
    proof {
        crate::vec3::lemma_mul_bound(v as int, PLANE_ONE as int, 0x1_0000_0000, PLANE_ONE as int);
        assert(v as int * PLANE_ONE <= n as int * PLANE_ONE) by (nonlinear_arith)
            requires
                v < n,
        ;
        assert((n as int * PLANE_ONE) == (PLANE_ONE as int) * n) by (nonlinear_arith);
        crate::hit::lemma_div_range(v as int * PLANE_ONE, n as int, 0, PLANE_ONE as int);
    }
    let q = ((v as u64) * (PLANE_ONE as u64)) / (n as u64);
    q as u32
}

/// Cap on the diagnostic ray and cache counters; they saturate there.
pub const COUNT_CAP: u64 = 0x1_0000_0000;

/// Saturating addition of two diagnostic counters.
fn cap_add(a: u64, b: u64) -> (r: u64)
    requires
        a <= COUNT_CAP,
        b <= COUNT_CAP,
    ensures
        r == if a + b <= COUNT_CAP {
            a + b
        } else {
            COUNT_CAP as int
        },
        r <= COUNT_CAP,
        r >= a && r >= b,
{
    if a + b <= COUNT_CAP {
        a + b
    } else {
        COUNT_CAP
    }
}

fn saturating_add(a: u32, b: u32) -> (r: u32)
    requires
        a <= PLANE_ONE,
        b <= PLANE_ONE,
    ensures
        r == if a + b <= PLANE_ONE {
            a + b
        } else {
            PLANE_ONE as int
        },
        r <= PLANE_ONE,
{
    if a + b <= PLANE_ONE {
        a + b
    } else {
        PLANE_ONE
    }
}

fn saturating_sub(a: u32, b: u32) -> (r: u32)
    requires
        a <= PLANE_ONE,
    ensures
        r == if a >= b {
            a - b
        } else {
            0int
        },
        r <= PLANE_ONE,
{
    if a >= b {
        a - b
    } else {
        0
    }
}

fn saturating_cap(a: u32) -> (r: u32)
    ensures
        r == if a <= PLANE_ONE {
            a as int
        } else {
            PLANE_ONE as int
        },
        r <= PLANE_ONE,
{
    if a <= PLANE_ONE {
        a
    } else {
        PLANE_ONE
    }
}

} // verus!
