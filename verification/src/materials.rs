//! Materials: Lambertian diffuse, fuzzy metal, and Schlick-weighted
//! dielectric, as a closed sum type with pattern-matched scattering.

use vstd::prelude::*;
use crate::fixed::{
    SCALE, iabs, tdiv, isqrt, fxmul, fxdiv, fxsqrt, lemma_tdiv_props, lemma_tdiv_bound,
    lemma_mul_abs_bound, lemma_fxmul_bound, fx_mul, fx_div, fx_sqrt,
};
use crate::vec3::{
    Vec3, Color, bounded, dot_raw, dot_fx, norm_comp, unit_vec, reflect_comps, refract_comps,
    lemma_dot_raw_bound,
};
use crate::ray::{Ray, MAX_PT, MAX_DIR, ray_wf};
use crate::objects::HitRecord;
use crate::rng::rng_below;

verus! {

/// A color channel is a fixed-point value in `[0, 1]` world units.
pub open spec fn color_wf(c: Vec3) -> bool {
    0 <= c.x <= SCALE && 0 <= c.y <= SCALE && 0 <= c.z <= SCALE
}

#[derive(Clone, Copy, Debug)]
pub struct Lambertian {
    pub albedo: Color,
}

#[derive(Clone, Copy, Debug)]
pub struct Metal {
    pub albedo: Color,
    pub fuzziness: i64,
}

#[derive(Clone, Copy, Debug)]
pub struct Dielectric {
    pub refraction_index: i64,
}

/// The closed set of materials, dispatched by pattern matching.
#[derive(Clone, Copy, Debug)]
pub enum Material {
    Lambertian(Lambertian),
    Metal(Metal),
    Dielectric(Dielectric),
}

/// Well-formed materials: colors in range, fuzz in `[0, 1]`, refraction
/// index between one tenth and ten (the range on which the fixed-point
/// Fresnel arithmetic is proved in bounds).
pub open spec fn material_wf(m: Material) -> bool {
    match m {
        Material::Lambertian(l) => color_wf(l.albedo),
        Material::Metal(mt) => color_wf(mt.albedo) && 0 <= mt.fuzziness <= SCALE,
        Material::Dielectric(d) => 100_000 <= d.refraction_index <= 10_000_000,
    }
}

/// Schlick's reflectance approximation, in fixed point.
pub open spec fn schlick(cosine: int, ref_idx: int) -> int {
    let r0 = fxdiv(SCALE - ref_idx, SCALE + ref_idx);
    let r02 = fxmul(r0, r0);
    let q = SCALE - cosine;
    let q2 = fxmul(q, q);
    let q5 = fxmul(fxmul(q2, q2), q);
    r02 + fxmul(SCALE - r02, q5)
}

/// The metal scatter decision: reflect the unit incoming direction, perturb
/// by fuzz, and absorb the ray when the result dips below the surface.
pub open spec fn metal_scatter_spec(m: Metal, ray: Ray, rec: HitRecord, unit: Vec3) -> Option<
    (Color, Ray),
> {
    let nd = unit_vec(ray.direction);
    let rf = reflect_comps(nd, rec.normal);
    let dir = Vec3 {
        x: (rf.0 + fxmul(m.fuzziness as int, unit.x as int)) as i64,
        y: (rf.1 + fxmul(m.fuzziness as int, unit.y as int)) as i64,
        z: (rf.2 + fxmul(m.fuzziness as int, unit.z as int)) as i64,
    };
    if dot_raw(dir, rec.normal) <= 0 {
        None
    } else {
        Some((m.albedo, Ray { origin: rec.p, direction: dir }))
    }
}

/// The dielectric direction: reflect on total internal reflection or when
/// the Schlick reflectance exceeds the random draw, otherwise refract.
pub open spec fn dielectric_dir_spec(ir: int, ray: Ray, rec: HitRecord, draw: int) -> (
    int,
    int,
    int,
) {
    let ratio = if rec.front_face { fxdiv(SCALE as int, ir) } else { ir };
    let nd = unit_vec(ray.direction);
    let cosd = dot_fx(nd, rec.normal);
    let cos = -(if cosd <= SCALE { cosd } else { SCALE as int });
    let c2 = fxmul(cos, cos);
    let sin = if c2 <= SCALE { fxsqrt(SCALE - c2) } else { 0 };
    if fxmul(ratio, sin) > SCALE || schlick(cos, ratio) > draw {
        reflect_comps(nd, rec.normal)
    } else {
        refract_comps(nd, rec.normal, ratio)
    }
}

/// A vector the unit-shell sampler can return: componentwise within one
/// world unit, with raw squared length within half a percent of one.
pub open spec fn unit_sample(u: Vec3) -> bool {
    bounded(u, SCALE as int) && iabs(dot_raw(u, u) - 1_000_000_000_000) <= 5_000_000_000
}

/// A surface hit on which scattering arithmetic stays in bounds.
pub open spec fn scatter_rec_wf(rec: HitRecord) -> bool {
    bounded(rec.p, MAX_PT as int) && bounded(rec.normal, 2 * SCALE)
}

impl Lambertian {
    pub fn new(albedo: Color) -> (r: Lambertian)
        ensures
            r.albedo == albedo,
    {
        Lambertian { albedo }
    }
}

impl Metal {
    /// Fuzziness is clamped into `[0, 1]`, never rejected.
    pub fn new(albedo: Color, fuzziness: i64) -> (r: Metal)
        ensures
            r.albedo == albedo,
            r.fuzziness == (if fuzziness > SCALE {
                SCALE as int
            } else if fuzziness < 0 {
                0int
            } else {
                fuzziness as int
            }),
    {
        if fuzziness > SCALE {
            Metal { albedo, fuzziness: SCALE }
        } else if fuzziness < 0 {
            Metal { albedo, fuzziness: 0 }
        } else {
            Metal { albedo, fuzziness }
        }
    }
}

impl Dielectric {
    pub fn new(refraction_index: i64) -> (r: Dielectric)
        ensures
            r.refraction_index == refraction_index,
    {
        Dielectric { refraction_index }
    }

    /// Schlick's approximation of the Fresnel reflection probability.
    fn reflectance(&self, cosine: i64, ref_idx: i64) -> (r: i64)
        requires
            iabs(cosine as int) <= 10 * SCALE,
            0 < ref_idx <= 10 * SCALE,
        ensures
            r == schlick(cosine as int, ref_idx as int),
    {
        proof {
            lemma_r0_bounded(ref_idx as int);
            lemma_fxmul_bound(
                fxdiv(SCALE - ref_idx, (SCALE + ref_idx) as int),
                fxdiv(SCALE - ref_idx, (SCALE + ref_idx) as int),
                SCALE as int,
                SCALE as int,
            );
        }
        let r0: i64 = fx_div(SCALE - ref_idx, SCALE + ref_idx);
        let r02: i64 = fx_mul(r0, r0);
        let q: i64 = SCALE - cosine;
        proof {
            lemma_fxmul_bound(q as int, q as int, 11 * SCALE, 11 * SCALE);
            lemma_fxmul_bound(fxmul(q as int, q as int), fxmul(q as int, q as int), 121 * SCALE, 121 * SCALE);
            lemma_fxmul_bound(
                fxmul(fxmul(q as int, q as int), fxmul(q as int, q as int)),
                q as int,
                14_641 * (SCALE as int),
                11 * SCALE,
            );
            lemma_fxmul_bound(
                (SCALE - r02) as int,
                fxmul(fxmul(fxmul(q as int, q as int), fxmul(q as int, q as int)), q as int),
                2 * SCALE,
                161_051 * (SCALE as int),
            );
        }
        let q2: i64 = fx_mul(q, q);
        let q4: i64 = fx_mul(q2, q2);
        let q5: i64 = fx_mul(q4, q);
        r02 + fx_mul(SCALE - r02, q5)
    }
}

/// The Schlick base reflectance has magnitude at most one for a nonnegative
/// index: the numerator never exceeds the denominator.
proof fn lemma_r0_bounded(idx: int)
    requires
        0 < idx,
    ensures
        iabs(fxdiv(SCALE - idx, SCALE + idx)) <= SCALE,
{
    lemma_mul_abs_bound(SCALE - idx, SCALE as int, SCALE + idx, SCALE as int);
    lemma_tdiv_bound((SCALE - idx) * SCALE, SCALE + idx, (SCALE + idx) * (SCALE as int));
    vstd::arithmetic::div_mod::lemma_div_multiples_vanish(SCALE as int, SCALE + idx);
    assert((SCALE + idx) * (SCALE as int) == (SCALE as int) * (SCALE + idx)) by (nonlinear_arith);
}

impl Material {
    /// Decide whether and where light scatters at a hit.  The randomness is
    /// drawn first; `scatter_with` does the verified decision.
    pub fn scatter(&self, ray: &Ray, rec: &HitRecord, rng: &mut rand::rngs::StdRng) -> (res:
        Option<(Color, Ray)>)
        requires
            material_wf(*self),
            scatter_rec_wf(*rec),
            ray_wf(*ray),
            dot_raw(ray.direction, ray.direction) > 0,
        ensures
            self matches Material::Lambertian(l) ==> res matches Some(p) && p.0 == l.albedo
                && p.1.origin == rec.p,
            self matches Material::Lambertian(l) ==> exists|u: Vec3|
                #[trigger] unit_sample(u) && res == Some(
                    (
                        l.albedo,
                        Ray {
                            origin: rec.p,
                            direction: Vec3 {
                                x: (rec.normal.x + u.x) as i64,
                                y: (rec.normal.y + u.y) as i64,
                                z: (rec.normal.z + u.z) as i64,
                            },
                        },
                    ),
                ),
            self matches Material::Metal(m) ==> (res matches Some(p) ==> p.0 == m.albedo
                && p.1.origin == rec.p && dot_raw(p.1.direction, rec.normal) > 0),
            self matches Material::Metal(m) ==> exists|u: Vec3|
                #[trigger] unit_sample(u) && res == metal_scatter_spec(*m, *ray, *rec, u),
            self matches Material::Dielectric(d) ==> res matches Some(p) && p.0 == (Vec3 {
                x: 950_000,
                y: 950_000,
                z: 950_000,
            }) && p.1.origin == rec.p && exists|dr: int|
                0 <= dr < SCALE && (
                p.1.direction.x as int,
                p.1.direction.y as int,
                p.1.direction.z as int,
            ) == #[trigger] dielectric_dir_spec(d.refraction_index as int, *ray, *rec, dr),
            res matches Some(p) ==> (bounded(p.1.direction, MAX_DIR as int) && bounded(
                p.1.origin,
                MAX_PT as int,
            ) && color_wf(p.0)),
    {
        match self {
            Material::Lambertian(l) => {
                let unit: Vec3 = Vec3::random_unit_vector(rng);
                let out: (Color, Ray) = lambertian_scatter_with(l, rec, &unit);
                let res: Option<(Color, Ray)> = Some(out);
                proof {
                    assert(unit_sample(unit));
                    assert(res == Some(
                        (
                            l.albedo,
                            Ray {
                                origin: rec.p,
                                direction: Vec3 {
                                    x: (rec.normal.x + unit.x) as i64,
                                    y: (rec.normal.y + unit.y) as i64,
                                    z: (rec.normal.z + unit.z) as i64,
                                },
                            },
                        ),
                    ));
                }
                res
            },
            Material::Metal(m) => {
                let unit: Vec3 = Vec3::random_unit_vector(rng);
                let res: Option<(Color, Ray)> = metal_scatter_with(m, ray, rec, &unit);
                proof {
                    assert(unit_sample(unit));
                    assert(res == metal_scatter_spec(*m, *ray, *rec, unit));
                }
                res
            },
            Material::Dielectric(d) => {
                let draw: i64 = rng_below(rng, 1_000_000) as i64;
                let out: (Color, Ray) = dielectric_scatter_with(d, ray, rec, draw);
                proof {
                    assert((
                        out.1.direction.x as int,
                        out.1.direction.y as int,
                        out.1.direction.z as int,
                    ) == dielectric_dir_spec(d.refraction_index as int, *ray, *rec, draw as int));
                }
                Some(out)
            },
        }
    }
}

/// Lambertian scattering: always scatters, toward the normal plus a random
/// unit vector, attenuated by the albedo.
pub fn lambertian_scatter_with(l: &Lambertian, rec: &HitRecord, unit: &Vec3) -> (res: (
    Color,
    Ray,
))
    requires
        scatter_rec_wf(*rec),
        bounded(*unit, SCALE as int),
    ensures
        res.0 == l.albedo,
        res.1.origin == rec.p,
        res.1.direction.x == rec.normal.x + unit.x,
        res.1.direction.y == rec.normal.y + unit.y,
        res.1.direction.z == rec.normal.z + unit.z,
        bounded(res.1.direction, 3 * SCALE),
{
    let dir: Vec3 = rec.normal.add(unit);
    (l.albedo, Ray { origin: rec.p, direction: dir })
}

/// Metal scattering on a given fuzz perturbation: absorbs the ray exactly
/// when the perturbed reflection dips below the surface.
pub fn metal_scatter_with(m: &Metal, ray: &Ray, rec: &HitRecord, unit: &Vec3) -> (res: Option<
    (Color, Ray),
>)
    requires
        0 <= m.fuzziness <= SCALE,
        scatter_rec_wf(*rec),
        ray_wf(*ray),
        dot_raw(ray.direction, ray.direction) > 0,
        bounded(*unit, SCALE as int),
    ensures
        res == metal_scatter_spec(*m, *ray, *rec, *unit),
        (res is None) == (metal_scatter_spec(*m, *ray, *rec, *unit) is None),
        res matches Some(p) ==> (p.0 == m.albedo && p.1.origin == rec.p && dot_raw(
            p.1.direction,
            rec.normal,
        ) > 0 && bounded(p.1.direction, 26 * SCALE)),
        (m.fuzziness == 0 && iabs(dot_raw(rec.normal, rec.normal) - 1_000_000_000_000)
            <= 5_000_000_000 && dot_raw(unit_vec(ray.direction), rec.normal) <= -(10 * SCALE))
            ==> res is Some,
{
    let nd: Vec3 = ray.direction().normalize();
    let rf: Vec3 = nd.reflect(&rec.normal);
    proof {
        lemma_reflect_unit_bound(nd, rec.normal);
        lemma_fxmul_bound(m.fuzziness as int, unit.x as int, SCALE as int, SCALE as int);
        lemma_fxmul_bound(m.fuzziness as int, unit.y as int, SCALE as int, SCALE as int);
        lemma_fxmul_bound(m.fuzziness as int, unit.z as int, SCALE as int, SCALE as int);
    }
    let dir: Vec3 = rf.add(&unit.scale(m.fuzziness));
    proof {
        assert((unit.x as int) * (m.fuzziness as int) == (m.fuzziness as int) * (unit.x as int))
            by (nonlinear_arith);
        assert((unit.y as int) * (m.fuzziness as int) == (m.fuzziness as int) * (unit.y as int))
            by (nonlinear_arith);
        assert((unit.z as int) * (m.fuzziness as int) == (m.fuzziness as int) * (unit.z as int))
            by (nonlinear_arith);
        assert(fxmul(unit.x as int, m.fuzziness as int) == fxmul(m.fuzziness as int, unit.x as int));
        assert(fxmul(unit.y as int, m.fuzziness as int) == fxmul(m.fuzziness as int, unit.y as int));
        assert(fxmul(unit.z as int, m.fuzziness as int) == fxmul(m.fuzziness as int, unit.z as int));
    }
    let dd: i128 = dir.dot_wide(&rec.normal);
    proof {
        if m.fuzziness == 0 && iabs(dot_raw(rec.normal, rec.normal) - 1_000_000_000_000)
            <= 5_000_000_000 && dot_raw(unit_vec(ray.direction), rec.normal) <= -(10 * SCALE) {
            assert(nd == unit_vec(ray.direction));
            crate::fixed::lemma_tdiv_zero(SCALE as int);
            assert((unit.x as int) * 0 == 0) by (nonlinear_arith);
            assert((unit.y as int) * 0 == 0) by (nonlinear_arith);
            assert((unit.z as int) * 0 == 0) by (nonlinear_arith);
            assert(fxmul(unit.x as int, 0) == 0);
            assert(fxmul(unit.y as int, 0) == 0);
            assert(fxmul(unit.z as int, 0) == 0);
            lemma_grazing_reflection(nd, rec.normal);
            assert(dd > 0);
        }
    }
    if dd <= 0 {
        None
    } else {
        Some((m.albedo, Ray { origin: rec.p, direction: dir }))
    }
}

/// With zero fuzz, a near-unit normal, and an incoming unit direction whose
/// raw dot with the normal is at least ten millionths below grazing, the
/// reflection lands strictly above the surface: only within that margin can
/// fixed-point truncation leave it below.
proof fn lemma_grazing_reflection(nd: Vec3, n: Vec3)
    requires
        bounded(nd, SCALE as int),
        bounded(n, 2 * SCALE),
        iabs(dot_raw(n, n) - 1_000_000_000_000) <= 5_000_000_000,
        dot_raw(nd, n) <= -(10 * SCALE),
    ensures
        ({
            let (rx, ry, rz) = reflect_comps(nd, n);
            rx * n.x + ry * n.y + rz * n.z > 0
        }),
{
    let dd = dot_raw(nd, n);
    let nn = dot_raw(n, n);
    let e = -dd;
    let d = dot_fx(nd, n);
    let q = e / 1_000_000;
    let rho = e % 1_000_000;
    vstd::arithmetic::div_mod::lemma_fundamental_div_mod(e, 1_000_000);
    vstd::arithmetic::div_mod::lemma_mod_bound(e, 1_000_000);
    assert(d == -q);
    vstd::arithmetic::div_mod::lemma_div_is_ordered(10_000_000, e, 1_000_000);
    vstd::arithmetic::div_mod::lemma_div_multiples_vanish(10, 1_000_000);
    assert(q >= 10);
    let tx = fxmul(2 * d, n.x as int);
    let ty = fxmul(2 * d, n.y as int);
    let tz = fxmul(2 * d, n.z as int);
    lemma_tdiv_props((2 * d) * n.x, 1_000_000);
    lemma_tdiv_props((2 * d) * n.y, 1_000_000);
    lemma_tdiv_props((2 * d) * n.z, 1_000_000);
    let ex = tx * 1_000_000 - (2 * d) * n.x;
    let ey = ty * 1_000_000 - (2 * d) * n.y;
    let ez = tz * 1_000_000 - (2 * d) * n.z;
    lemma_mul_abs_bound(ex, n.x as int, 999_999, 2_000_000);
    lemma_mul_abs_bound(ey, n.y as int, 999_999, 2_000_000);
    lemma_mul_abs_bound(ez, n.z as int, 999_999, 2_000_000);
    assert((tx * n.x) * 1_000_000 == (2 * d) * (n.x * n.x) + ex * n.x) by (nonlinear_arith)
        requires
            ex == tx * 1_000_000 - (2 * d) * n.x,
    ;
    assert((ty * n.y) * 1_000_000 == (2 * d) * (n.y * n.y) + ey * n.y) by (nonlinear_arith)
        requires
            ey == ty * 1_000_000 - (2 * d) * n.y,
    ;
    assert((tz * n.z) * 1_000_000 == (2 * d) * (n.z * n.z) + ez * n.z) by (nonlinear_arith)
        requires
            ez == tz * 1_000_000 - (2 * d) * n.z,
    ;
    let tsum = tx * n.x + ty * n.y + tz * n.z;
    assert((2 * d) * (n.x * n.x) + (2 * d) * (n.y * n.y) + (2 * d) * (n.z * n.z)
        == -((2 * q) * nn)) by (nonlinear_arith)
        requires
            d == -q,
            nn == n.x * n.x + n.y * n.y + n.z * n.z,
    ;
    assert(tsum * 1_000_000 == (tx * n.x) * 1_000_000 + (ty * n.y) * 1_000_000 + (tz * n.z)
        * 1_000_000);
    assert(tsum * 1_000_000 <= -((2 * q) * nn) + 6_000_000_000_000);
    let res = dd - tsum;
    assert(res * 1_000_000 == dd * 1_000_000 - tsum * 1_000_000);
    assert(res * 1_000_000 >= dd * 1_000_000 + (2 * q) * nn - 6_000_000_000_000);
    assert(dd * 1_000_000 == -(1_000_000_000_000 * q) - 1_000_000 * rho);
    assert((2 * q) * nn - 1_000_000_000_000 * q == q * (2 * nn - 1_000_000_000_000))
        by (nonlinear_arith);
    assert(q * (2 * nn - 1_000_000_000_000) >= 9_900_000_000_000) by (nonlinear_arith)
        requires
            q >= 10,
            2 * nn - 1_000_000_000_000 >= 990_000_000_000,
    ;
    assert(res * 1_000_000 >= 9_900_000_000_000 - 1_000_000 * rho - 6_000_000_000_000);
    assert(res > 0);
    let (rx, ry, rz) = reflect_comps(nd, n);
    assert(rx == nd.x - tx && ry == nd.y - ty && rz == nd.z - tz);
    assert((nd.x - tx) * n.x == nd.x * n.x - tx * n.x) by (nonlinear_arith);
    assert((nd.y - ty) * n.y == nd.y * n.y - ty * n.y) by (nonlinear_arith);
    assert((nd.z - tz) * n.z == nd.z * n.z - tz * n.z) by (nonlinear_arith);
    assert(rx * n.x + ry * n.y + rz * n.z == res);
}

/// Dielectric scattering on a given reflectance draw: always scatters, with
/// the fixed near-transparent attenuation; reflects on total internal
/// reflection or a reflectance draw, otherwise refracts.
pub fn dielectric_scatter_with(d: &Dielectric, ray: &Ray, rec: &HitRecord, draw: i64) -> (res: (
    Color,
    Ray,
))
    requires
        100_000 <= d.refraction_index <= 10_000_000,
        scatter_rec_wf(*rec),
        ray_wf(*ray),
        dot_raw(ray.direction, ray.direction) > 0,
        0 <= draw < SCALE,
    ensures
        res.0 == (Vec3 { x: 950_000, y: 950_000, z: 950_000 }),
        res.1.origin == rec.p,
        (res.1.direction.x as int, res.1.direction.y as int, res.1.direction.z as int)
            == dielectric_dir_spec(d.refraction_index as int, *ray, *rec, draw as int),
        bounded(res.1.direction, MAX_DIR as int),
{
    let ratio: i64 = if rec.front_face {
        proof {
            lemma_mul_abs_bound(SCALE as int, SCALE as int, SCALE as int, SCALE as int);
            lemma_tdiv_bound(
                (SCALE as int) * SCALE,
                d.refraction_index as int,
                (SCALE as int) * (SCALE as int),
            );
            vstd::arithmetic::div_mod::lemma_div_is_ordered_by_denominator(
                1_000_000_000_000,
                100_000,
                d.refraction_index as int,
            );
            lemma_tdiv_props((SCALE as int) * SCALE, d.refraction_index as int);
            vstd::arithmetic::div_mod::lemma_div_pos_is_pos(
                1_000_000_000_000,
                d.refraction_index as int,
            );
        }
        fx_div(SCALE, d.refraction_index)
    } else {
        d.refraction_index
    };
    proof {
        lemma_ratio_pos(d.refraction_index as int, rec.front_face);
    }
    let nd: Vec3 = ray.direction().normalize();
    proof {
        lemma_dot_raw_bound(nd, rec.normal, SCALE as int, 2 * SCALE);
        lemma_tdiv_bound(dot_raw(nd, rec.normal), SCALE as int, 6 * (SCALE as int) * (SCALE as int));
    }
    let cosd: i64 = nd.dot(&rec.normal);
    let cos: i64 = -(if cosd <= SCALE { cosd } else { SCALE });
    proof {
        lemma_fxmul_bound(cos as int, cos as int, 6 * SCALE, 6 * SCALE);
    }
    proof {
        assert((cos as int) * (cos as int) >= 0) by (nonlinear_arith);
        lemma_tdiv_props((cos as int) * (cos as int), SCALE as int);
    }
    let c2: i64 = fx_mul(cos, cos);
    let sin: i64 = if c2 <= SCALE { fx_sqrt(SCALE - c2) } else { 0 };
    proof {
        if c2 <= SCALE {
            crate::fixed::lemma_isqrt_props(((SCALE - c2) as int) * (SCALE as int));
            assert(isqrt(((SCALE - c2) as int) * (SCALE as int)) <= SCALE) by (nonlinear_arith)
                requires
                    isqrt(((SCALE - c2) as int) * (SCALE as int)) >= 0,
                    isqrt(((SCALE - c2) as int) * (SCALE as int)) * isqrt(
                        ((SCALE - c2) as int) * (SCALE as int),
                    ) <= ((SCALE - c2) as int) * (SCALE as int),
                    0 <= ((SCALE - c2) as int) * (SCALE as int) <= 1_000_000_000_000,
            ;
        }
        lemma_fxmul_bound(ratio as int, sin as int, 10 * SCALE, SCALE as int);
    }
    let must_reflect: bool = fx_mul(ratio, sin) > SCALE;
    let dir: Vec3 = if must_reflect || d.reflectance(cos, ratio) > draw {
        nd.reflect(&rec.normal)
    } else {
        nd.refract(&rec.normal, ratio)
    };
    proof {
        lemma_reflect_unit_bound(nd, rec.normal);
    }
    (Vec3 { x: 950_000, y: 950_000, z: 950_000 }, Ray { origin: rec.p, direction: dir })
}

/// Law: at exact normal incidence on a front face there is no total
/// internal reflection, and every draw at or above the Schlick reflectance
/// chooses refraction, for every admissible refraction index.
pub proof fn lemma_dielectric_normal_incidence(ir: int, ray: Ray, rec: HitRecord, draw: int)
    requires
        100_000 <= ir <= 10_000_000,
        rec.front_face,
        dot_fx(unit_vec(ray.direction), rec.normal) == -SCALE,
        schlick(SCALE as int, fxdiv(SCALE as int, ir)) <= draw,
    ensures
        dielectric_dir_spec(ir, ray, rec, draw) == refract_comps(
            unit_vec(ray.direction),
            rec.normal,
            fxdiv(SCALE as int, ir),
        ),
{
    let ratio = fxdiv(SCALE as int, ir);
    let nd = unit_vec(ray.direction);
    let cosd = dot_fx(nd, rec.normal);
    assert(cosd <= SCALE);
    let cos = -cosd;
    assert(cos == SCALE as int);
    // the squared cosine is exactly one, so the sine vanishes
    vstd::arithmetic::div_mod::lemma_div_multiples_vanish(SCALE as int, SCALE as int);
    crate::fixed::lemma_tdiv_props((SCALE as int) * SCALE, SCALE as int);
    assert(fxmul(cos, cos) == SCALE as int);
    assert(fxsqrt(0) == 0);
    // no total internal reflection: the ratio times a zero sine is zero
    crate::fixed::lemma_tdiv_zero(SCALE as int);
    assert(ratio * 0 == 0) by (nonlinear_arith);
    assert(fxmul(ratio, 0) == 0);
}

/// The refraction ratio is positive and at most ten in either direction.
proof fn lemma_ratio_pos(ir: int, front: bool)
    requires
        100_000 <= ir <= 10_000_000,
    ensures
        front ==> 0 < fxdiv(SCALE as int, ir) <= 10 * SCALE,
        !front ==> 0 < ir <= 10 * SCALE,
{
    if front {
        lemma_tdiv_props((SCALE as int) * SCALE, ir);
        vstd::arithmetic::div_mod::lemma_div_is_ordered_by_denominator(
            1_000_000_000_000,
            100_000,
            ir,
        );
        assert(1_000_000_000_000int / 100_000 == 10_000_000);
        vstd::arithmetic::div_mod::lemma_fundamental_div_mod(1_000_000_000_000, ir);
        vstd::arithmetic::div_mod::lemma_mod_bound(1_000_000_000_000, ir);
        assert(1_000_000_000_000int / ir >= 1) by (nonlinear_arith)
            requires
                1_000_000_000_000int == ir * (1_000_000_000_000int / ir) + 1_000_000_000_000int % ir,
                0 <= 1_000_000_000_000int % ir < ir,
                0 < ir <= 10_000_000,
        ;
    }
}

/// Reflecting a unit direction about a near-unit normal stays within a few
/// world units per component.
proof fn lemma_reflect_unit_bound(v: Vec3, n: Vec3)
    requires
        bounded(v, SCALE as int),
        bounded(n, 2 * SCALE),
    ensures
        iabs(reflect_comps(v, n).0) <= 25 * SCALE,
        iabs(reflect_comps(v, n).1) <= 25 * SCALE,
        iabs(reflect_comps(v, n).2) <= 25 * SCALE,
{
    lemma_dot_raw_bound(v, n, SCALE as int, 2 * SCALE);
    lemma_tdiv_bound(dot_raw(v, n), SCALE as int, 6 * (SCALE as int) * (SCALE as int));
    let dd = dot_fx(v, n);
    lemma_fxmul_bound(2 * dd, n.x as int, 12 * SCALE, 2 * SCALE);
    lemma_fxmul_bound(2 * dd, n.y as int, 12 * SCALE, 2 * SCALE);
    lemma_fxmul_bound(2 * dd, n.z as int, 12 * SCALE, 2 * SCALE);
}

} // verus!
