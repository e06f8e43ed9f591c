//! The integrator and the per-pixel sampling loop: recursive radiance
//! accumulation, gamma correction, quantization, and the parallel render.

use vstd::prelude::*;
use rayon::iter::IntoParallelIterator;
use rayon::iter::ParallelIterator;
use crate::fixed::{
    SCALE, iabs, tdiv, isqrt, fxmul, fxsqrt, lemma_isqrt_props, lemma_tdiv_props,
    lemma_tdiv_bound, lemma_mul_abs_bound, lemma_fxmul_bound, exec_tdiv, fx_mul, fx_sqrt,
};
use crate::vec3::{
    Vec3, Color, bounded, dot_raw, norm_comp, lemma_dot_raw_pos, lemma_dot_raw_bound,
};
use crate::ray::{Ray, MAX_PT, MAX_DIR, ray_wf};
use crate::objects::{HittableCollection, sphere_hit_spec, coll_hit_spec, coll_wf};
use crate::materials::{Material, material_wf, color_wf};
use crate::camera::{Camera, camera_wf};
use crate::rng::{rng_from_seed, rng_below};

verus! {

/// Lower intersection bound for scattered rays, avoiding self-intersection.
pub const T_MIN_BOUNCE: i64 = 1_000;

/// Upper intersection bound: the stand-in for an unbounded ray.
pub const T_MAX_RENDER: i64 = 1_000_000_000_000_000;

/// The background gradient: white blended toward sky blue by the height of
/// the unit direction.
pub open spec fn background_comps(dir: Vec3) -> (int, int, int) {
    let uy = norm_comp(dir.y as int, dir);
    let t = fxmul(500_000, uy + SCALE);
    (
        fxmul(SCALE - t, SCALE as int) + fxmul(t, 500_000),
        fxmul(SCALE - t, SCALE as int) + fxmul(t, 700_000),
        fxmul(SCALE - t, SCALE as int) + fxmul(t, SCALE as int),
    )
}

/// Recursive radiance: black at the bounce limit or on absorption, the
/// attenuated radiance of the scattered ray on a hit, the background
/// gradient on a miss.  A ray with an exactly zero direction, which the
/// reference leaves undefined (its normalization divides by zero), is
/// treated as absorbed.
pub fn ray_color(ray: &Ray, objects: &HittableCollection, bounces: i32, rng: &mut rand::rngs::StdRng) -> (c: Color)
    requires
        coll_wf(objects.objects@),
        ray_wf(*ray),
    ensures
        0 <= c.x <= SCALE && 0 <= c.y <= SCALE && 0 <= c.z <= SCALE,
        bounces <= 0 ==> c == (Vec3 { x: 0i64, y: 0i64, z: 0i64 }),
        bounces > 0 && ray.direction == (Vec3 { x: 0i64, y: 0i64, z: 0i64 }) ==> c == (Vec3 {
            x: 0i64,
            y: 0i64,
            z: 0i64,
        }),
        bounces > 0 && !(ray.direction == (Vec3 { x: 0i64, y: 0i64, z: 0i64 })) && coll_hit_spec(
            objects.objects@,
            *ray,
            T_MIN_BOUNCE as int,
            T_MAX_RENDER as int,
        ) is None ==> (c.x as int, c.y as int, c.z as int) == background_comps(ray.direction),
    decreases bounces,
{
    if bounces <= 0 {
        return Vec3 { x: 0, y: 0, z: 0 };
    }
    if ray.direction.x == 0 && ray.direction.y == 0 && ray.direction.z == 0 {
        return Vec3 { x: 0, y: 0, z: 0 };
    }
    proof {
        lemma_dot_raw_pos(ray.direction);
    }
    match objects.hit(ray, T_MIN_BOUNCE, T_MAX_RENDER) {
        Some(rec) => {
            match rec.material.scatter(ray, &rec, rng) {
                Some((attenuation, scattered)) => {
                    let sub: Color = ray_color(&scattered, objects, bounces - 1, rng);
                    proof {
                        lemma_channel_mul(attenuation.x as int, sub.x as int);
                        lemma_channel_mul(attenuation.y as int, sub.y as int);
                        lemma_channel_mul(attenuation.z as int, sub.z as int);
                    }
                    attenuation.mul(&sub)
                },
                None => Vec3 { x: 0, y: 0, z: 0 },
            }
        },
        None => {
            let unit: Vec3 = ray.direction().normalize();
            proof {
                lemma_tdiv_bound(500_000 * (unit.y + SCALE), SCALE as int, 1_000_000_000_000);
                lemma_tdiv_props(500_000 * (unit.y + SCALE), SCALE as int);
            }
            let t: i64 = fx_mul(500_000, unit.y + SCALE);
            proof {
                lemma_gradient_channel(t as int, 500_000);
                lemma_gradient_channel(t as int, 700_000);
                lemma_gradient_channel(t as int, SCALE as int);
            }
            Vec3 {
                x: fx_mul(SCALE - t, SCALE) + fx_mul(t, 500_000),
                y: fx_mul(SCALE - t, SCALE) + fx_mul(t, 700_000),
                z: fx_mul(SCALE - t, SCALE) + fx_mul(t, SCALE),
            }
        },
    }
}

/// The product of two channels in `[0, 1]` stays in `[0, 1]`.
proof fn lemma_channel_mul(a: int, b: int)
    requires
        0 <= a <= SCALE,
        0 <= b <= SCALE,
    ensures
        0 <= fxmul(a, b) <= SCALE,
{
    lemma_mul_abs_bound(a, b, SCALE as int, SCALE as int);
    lemma_tdiv_bound(a * b, SCALE as int, 1_000_000_000_000);
    lemma_tdiv_props(a * b, SCALE as int);
    assert(a * b >= 0) by (nonlinear_arith)
        requires
            a >= 0,
            b >= 0,
    ;
}

/// One channel of the gradient stays in `[0, 1]`: the white part is exact
/// and the sky part is bounded by the blend weight.
proof fn lemma_gradient_channel(t: int, sky: int)
    requires
        0 <= t <= SCALE,
        0 <= sky <= SCALE,
    ensures
        fxmul(SCALE - t, SCALE as int) == SCALE - t,
        0 <= fxmul(t, sky) <= t,
        0 <= fxmul(SCALE - t, SCALE as int) + fxmul(t, sky) <= SCALE,
{
    lemma_mul_div_exact(SCALE - t);
    lemma_mul_abs_bound(t, sky, t, SCALE as int);
    lemma_tdiv_bound(t * sky, SCALE as int, t * (SCALE as int));
    lemma_tdiv_props(t * sky, SCALE as int);
    assert(t * sky >= 0) by (nonlinear_arith)
        requires
            t >= 0,
            sky >= 0,
    ;
    assert((t * (SCALE as int)) / (SCALE as int) == t) by (nonlinear_arith);
}

/// Multiplying by one world unit and scaling back down is exact.
proof fn lemma_mul_div_exact(a: int)
    ensures
        fxmul(a, SCALE as int) == a,
{
    lemma_tdiv_props(a * SCALE, SCALE as int);
    assert(iabs(a * SCALE) == iabs(a) * SCALE) by (nonlinear_arith);
    vstd::arithmetic::div_mod::lemma_div_multiples_vanish(iabs(a), SCALE as int);
    assert(iabs(a) * SCALE == SCALE * iabs(a)) by (nonlinear_arith);
}

/// Render parameters: image size, sampling effort, recursion depth, and the
/// base seed from which per-pixel generators are derived.
pub struct RenderConfig {
    pub image_width: usize,
    pub image_height: usize,
    pub samples_per_pixel: u32,
    pub max_bounces: i32,
    pub seed: u64,
}

/// Sizes on which the screen-coordinate arithmetic is in bounds.
pub open spec fn config_wf(cfg: RenderConfig) -> bool {
    3 <= cfg.image_width <= 20_000 && 3 <= cfg.image_height <= 20_000 && 0
        < cfg.samples_per_pixel <= 1_000_000
}

/// A jittered screen coordinate: `(cell * SCALE + jitter) / (extent - 1)`,
/// in fixed point, is between zero and two.
proof fn lemma_screen_coord(cell: int, extent: int, jitter: int)
    requires
        3 <= extent <= 20_000,
        0 <= cell <= extent,
        0 <= jitter < SCALE,
    ensures
        0 <= tdiv((cell * SCALE + jitter) * SCALE, (extent - 1) * SCALE) <= 2 * SCALE,
{
    let num = (cell * SCALE + jitter) * (SCALE as int);
    let den = (extent - 1) * (SCALE as int);
    assert(den > 0) by (nonlinear_arith)
        requires
            den == (extent - 1) * (SCALE as int),
            extent >= 3,
    ;
    assert(num >= 0) by (nonlinear_arith)
        requires
            num == (cell * SCALE + jitter) * (SCALE as int),
            cell >= 0,
            jitter >= 0,
    ;
    assert(num <= 2 * ((extent - 1) * (SCALE as int)) * (SCALE as int)) by (nonlinear_arith)
        requires
            num == (cell * SCALE + jitter) * (SCALE as int),
            0 <= cell <= extent,
            0 <= jitter < SCALE,
            extent >= 3,
    ;
    lemma_tdiv_props(num, den);
    lemma_tdiv_bound(num, den, 2 * ((extent - 1) * (SCALE as int)) * (SCALE as int));
    assert((2 * ((extent - 1) * (SCALE as int)) * (SCALE as int)) / ((extent - 1) * (SCALE as int))
        == 2 * SCALE) by (nonlinear_arith)
        requires
            extent >= 3,
    ;
}

/// Accumulate the Monte Carlo samples for one pixel, row-major from the top
/// image row: the pixel's own generator is seeded from the base seed and the
/// pixel index.
pub fn sample_pixel(objects: &HittableCollection, cam: &Camera, cfg: &RenderConfig, index: usize) -> (acc: Color)
    requires
        coll_wf(objects.objects@),
        camera_wf(*cam),
        config_wf(*cfg),
        index < cfg.image_width * cfg.image_height,
    ensures
        0 <= acc.x <= cfg.samples_per_pixel * SCALE,
        0 <= acc.y <= cfg.samples_per_pixel * SCALE,
        0 <= acc.z <= cfg.samples_per_pixel * SCALE,
{
    let mut rng = rng_from_seed(cfg.seed.wrapping_add(index as u64));
    let w: usize = cfg.image_width;
    let h: usize = cfg.image_height;
    let i: usize = index % w;
    let jdiv: usize = index / w;
    proof {
        vstd::arithmetic::div_mod::lemma_fundamental_div_mod(index as int, w as int);
        vstd::arithmetic::div_mod::lemma_mod_bound(index as int, w as int);
        vstd::arithmetic::div_mod::lemma_div_pos_is_pos(index as int, w as int);
        assert(index / w < h) by (nonlinear_arith)
            requires
                index < w * h,
                w > 0,
                index as int == (w as int) * ((index as int) / (w as int)) + (index as int) % (
                w as int),
                0 <= (index as int) % (w as int) < w,
        ;
        assert(index % w < w);
    }
    let j: usize = h - jdiv;
    let mut acc: Color = Vec3 { x: 0, y: 0, z: 0 };
    let mut k: u32 = 0;
    while k < cfg.samples_per_pixel
        invariant
            coll_wf(objects.objects@),
            camera_wf(*cam),
            config_wf(*cfg),
            0 <= k <= cfg.samples_per_pixel,
            0 <= acc.x <= k * SCALE,
            0 <= acc.y <= k * SCALE,
            0 <= acc.z <= k * SCALE,
            i < w,
            1 <= j <= h,
            w == cfg.image_width,
            h == cfg.image_height,
        decreases cfg.samples_per_pixel - k,
    {
        let du: i64 = rng_below(&mut rng, 1_000_000) as i64;
        let dv: i64 = rng_below(&mut rng, 1_000_000) as i64;
        proof {
            lemma_screen_coord(i as int, w as int, du as int);
            lemma_screen_coord(j as int, h as int, dv as int);
        }
        let unum: i64 = (i as i64) * SCALE + du;
        let vnum: i64 = (j as i64) * SCALE + dv;
        let u: i64 = exec_tdiv(
            (unum as i128) * (SCALE as i128),
            ((w - 1) as i128) * (SCALE as i128),
        ) as i64;
        let v: i64 = exec_tdiv(
            (vnum as i128) * (SCALE as i128),
            ((h - 1) as i128) * (SCALE as i128),
        ) as i64;
        let r: Ray = cam.get_ray(u, v, &mut rng);
        let col: Color = ray_color(&r, objects, cfg.max_bounces, &mut rng);
        acc = acc.add(&col);
        k = k + 1;
    }
    acc
}

/// Relies on rayon's into_par_iter, map and collect: applies `sample_pixel`
/// to every pixel index, in parallel, and collects the results in index
/// order.
#[verifier::external_body]
fn sample_pixels_parallel(
    objects: &HittableCollection,
    cam: &Camera,
    cfg: &RenderConfig,
    n: usize,
) -> (r: Vec<Color>)
    requires
        coll_wf(objects.objects@),
        camera_wf(*cam),
        config_wf(*cfg),
        n == cfg.image_width * cfg.image_height,
    ensures
        r@.len() == n,
        forall|k: int|
            0 <= k < n ==> (0 <= #[trigger] r@[k].x <= cfg.samples_per_pixel * SCALE && 0
                <= r@[k].y <= cfg.samples_per_pixel * SCALE && 0 <= r@[k].z
                <= cfg.samples_per_pixel * SCALE),
{
    (0..n).into_par_iter().map(|index| sample_pixel(objects, cam, cfg, index)).collect()
}

/// One channel of the final pixel: average, gamma-two correction, and
/// quantization to eight bits by `floor(255.99 * channel)`.
pub open spec fn finalize_channel(sum: int, samples: int) -> int {
    tdiv(255_990_000 * fxsqrt(tdiv(sum, samples)), 1_000_000_000_000)
}

/// Average the accumulated color, gamma-correct, and quantize each channel.
pub fn finalize_pixel(sum: &Color, samples_per_pixel: u32) -> (rgb: (u8, u8, u8))
    requires
        0 < samples_per_pixel <= 1_000_000,
        0 <= sum.x <= samples_per_pixel * SCALE,
        0 <= sum.y <= samples_per_pixel * SCALE,
        0 <= sum.z <= samples_per_pixel * SCALE,
    ensures
        rgb.0 == finalize_channel(sum.x as int, samples_per_pixel as int),
        rgb.1 == finalize_channel(sum.y as int, samples_per_pixel as int),
        rgb.2 == finalize_channel(sum.z as int, samples_per_pixel as int),
{
    (
        finalize_channel_exec(sum.x, samples_per_pixel),
        finalize_channel_exec(sum.y, samples_per_pixel),
        finalize_channel_exec(sum.z, samples_per_pixel),
    )
}

/// One quantized channel, with the arithmetic proved in range.
fn finalize_channel_exec(c: i64, samples: u32) -> (r: u8)
    requires
        0 < samples <= 1_000_000,
        0 <= c <= samples * SCALE,
    ensures
        r == finalize_channel(c as int, samples as int),
{
    proof {
        lemma_tdiv_props(c as int, samples as int);
        lemma_tdiv_bound(c as int, samples as int, (samples as int) * SCALE);
        vstd::arithmetic::div_mod::lemma_div_multiples_vanish(SCALE as int, samples as int);
        assert((samples as int) * SCALE == SCALE * (samples as int)) by (nonlinear_arith);
    }
    let avg: i64 = exec_tdiv(c as i128, samples as i128) as i64;
    proof {
        lemma_isqrt_props((avg as int) * SCALE);
        assert(isqrt((avg as int) * SCALE) <= SCALE) by (nonlinear_arith)
            requires
                isqrt((avg as int) * SCALE) >= 0,
                isqrt((avg as int) * SCALE) * isqrt((avg as int) * SCALE) <= (avg as int) * SCALE,
                0 <= (avg as int) * SCALE <= 1_000_000_000_000,
        ;
    }
    let g: i64 = fx_sqrt(avg);
    proof {
        lemma_mul_abs_bound(255_990_000, g as int, 255_990_000, SCALE as int);
        lemma_tdiv_bound(255_990_000 * (g as int), 1_000_000_000_000, 255_990_000_000_000);
        lemma_tdiv_props(255_990_000 * (g as int), 1_000_000_000_000);
        assert(255_990_000 * (g as int) >= 0) by (nonlinear_arith)
            requires
                g >= 0,
        ;
    }
    let ch: i64 = exec_tdiv(255_990_000 * (g as i128), 1_000_000_000_000) as i64;
    ch as u8
}

/// Render the whole image: one finished, gamma-corrected, quantized RGB
/// triple per pixel, row-major from the top row.
pub fn render(objects: &HittableCollection, cam: &Camera, cfg: &RenderConfig) -> (pixels: Vec<
    (u8, u8, u8),
>)
    requires
        coll_wf(objects.objects@),
        camera_wf(*cam),
        config_wf(*cfg),
    ensures
        pixels@.len() == cfg.image_width * cfg.image_height,
{
    proof {
        assert(cfg.image_width * cfg.image_height <= 400_000_000) by (nonlinear_arith)
            requires
                3 <= cfg.image_width <= 20_000,
                3 <= cfg.image_height <= 20_000,
        ;
    }
    let n: usize = cfg.image_width * cfg.image_height;
    let sums: Vec<Color> = sample_pixels_parallel(objects, cam, cfg, n);
    let mut pixels: Vec<(u8, u8, u8)> = Vec::new();
    let mut k: usize = 0;
    while k < n
        invariant
            0 <= k <= n,
            sums@.len() == n,
            pixels@.len() == k,
            0 < cfg.samples_per_pixel <= 1_000_000,
            forall|m: int|
                0 <= m < n ==> (0 <= #[trigger] sums@[m].x <= cfg.samples_per_pixel * SCALE && 0
                    <= sums@[m].y <= cfg.samples_per_pixel * SCALE && 0 <= sums@[m].z
                    <= cfg.samples_per_pixel * SCALE),
        decreases n - k,
    {
        let rgb: (u8, u8, u8) = finalize_pixel(&sums[k], cfg.samples_per_pixel);
        pixels.push(rgb);
        k = k + 1;
    }
    pixels
}

} // verus!
