//! Three-component fixed-point vectors, used interchangeably for points,
//! directions and RGB colors.

use vstd::prelude::*;
use crate::fixed::{
    SCALE, iabs, tdiv, isqrt, fxmul, fxdiv, fxsqrt,
    lemma_isqrt_props, lemma_isqrt_unique, lemma_tdiv_props, lemma_tdiv_bound,
    lemma_mul_abs_bound, lemma_fxmul_bound,
    exec_tdiv, exec_isqrt, fx_mul, fx_div, fx_sqrt,
};
use crate::rng::rng_below;

verus! {

/// Componentwise magnitude bound under which every vector operation of this
/// module stays within `i64` and `i128` ranges.
pub const MAX_COMP: i64 = 1_700_000_000_000;

/// Vectors whose squared length (raw) is below this are rejected by the
/// unit-vector sampler, keeping fixed-point normalization well conditioned.
pub const MIN_UNIT_RAW: i64 = 250_000;

#[derive(Clone, Copy, Debug, PartialEq, Eq, Structural)]
pub struct Vec3 {
    pub x: i64,
    pub y: i64,
    pub z: i64,
}

/// Colors and spatial points share the vector representation.
pub type Color = Vec3;
pub type Point3 = Vec3;

/// Every component is at most `b` in magnitude.
pub open spec fn bounded(v: Vec3, b: int) -> bool {
    iabs(v.x as int) <= b && iabs(v.y as int) <= b && iabs(v.z as int) <= b
}

/// Unscaled dot product: exact sum of component products (scale `SCALE^2`).
pub open spec fn dot_raw(u: Vec3, v: Vec3) -> int {
    u.x * v.x + u.y * v.y + u.z * v.z
}

/// Fixed-point dot product.
pub open spec fn dot_fx(u: Vec3, v: Vec3) -> int {
    tdiv(dot_raw(u, v), SCALE as int)
}

/// Fixed-point length: the square root halves the raw scale back to `SCALE`.
pub open spec fn length_fx(v: Vec3) -> int {
    isqrt(dot_raw(v, v))
}

/// One component of `v` normalized by the fixed-point length of `v`.
pub open spec fn norm_comp(c: int, v: Vec3) -> int {
    tdiv(c * SCALE, length_fx(v))
}

/// The unit vector in the direction of `v` (fixed-point normalization).
pub open spec fn unit_vec(v: Vec3) -> Vec3 {
    Vec3 {
        x: norm_comp(v.x as int, v) as i64,
        y: norm_comp(v.y as int, v) as i64,
        z: norm_comp(v.z as int, v) as i64,
    }
}

/// The components of the fixed-point cross product.
pub open spec fn cross_comps(u: Vec3, v: Vec3) -> (int, int, int) {
    (
        tdiv(u.y * v.z - u.z * v.y, SCALE as int),
        tdiv(u.z * v.x - u.x * v.z, SCALE as int),
        tdiv(u.x * v.y - u.y * v.x, SCALE as int),
    )
}

/// The components of `v` reflected about the normal `n`.
pub open spec fn reflect_comps(v: Vec3, n: Vec3) -> (int, int, int) {
    let d = dot_fx(v, n);
    (
        v.x - fxmul(2 * d, n.x as int),
        v.y - fxmul(2 * d, n.y as int),
        v.z - fxmul(2 * d, n.z as int),
    )
}

/// The components of `v` refracted at the normal `n` with index ratio
/// `ratio`: Snell's law split into perpendicular and parallel parts.
pub open spec fn refract_comps(v: Vec3, n: Vec3, ratio: int) -> (int, int, int) {
    let d = dot_fx(v, n);
    let cos = -(if d <= SCALE { d } else { SCALE as int });
    let px = fxmul(ratio, v.x + fxmul(cos, n.x as int));
    let py = fxmul(ratio, v.y + fxmul(cos, n.y as int));
    let pz = fxmul(ratio, v.z + fxmul(cos, n.z as int));
    let lsq = tdiv(px * px + py * py + pz * pz, SCALE as int);
    let s = fxsqrt(iabs(SCALE - lsq));
    (px - fxmul(s, n.x as int), py - fxmul(s, n.y as int), pz - fxmul(s, n.z as int))
}

impl Vec3 {
    pub fn new(x: i64, y: i64, z: i64) -> (r: Vec3)
        ensures
            r == (Vec3 { x, y, z }),
    {
        Vec3 { x, y, z }
    }

    pub fn x(&self) -> (r: i64)
        ensures
            r == self.x,
    {
        self.x
    }

    pub fn y(&self) -> (r: i64)
        ensures
            r == self.y,
    {
        self.y
    }

    pub fn z(&self) -> (r: i64)
        ensures
            r == self.z,
    {
        self.z
    }

    pub fn add(&self, other: &Vec3) -> (r: Vec3)
        requires
            iabs(self.x + other.x) <= i64::MAX,
            iabs(self.y + other.y) <= i64::MAX,
            iabs(self.z + other.z) <= i64::MAX,
        ensures
            r.x == self.x + other.x,
            r.y == self.y + other.y,
            r.z == self.z + other.z,
    {
        Vec3 { x: self.x + other.x, y: self.y + other.y, z: self.z + other.z }
    }

    pub fn add_assign(&mut self, other: &Vec3)
        requires
            iabs(old(self).x + other.x) <= i64::MAX,
            iabs(old(self).y + other.y) <= i64::MAX,
            iabs(old(self).z + other.z) <= i64::MAX,
        ensures
            final(self).x == old(self).x + other.x,
            final(self).y == old(self).y + other.y,
            final(self).z == old(self).z + other.z,
    {
        self.x = self.x + other.x;
        self.y = self.y + other.y;
        self.z = self.z + other.z;
    }

    pub fn sub(&self, other: &Vec3) -> (r: Vec3)
        requires
            iabs(self.x - other.x) <= i64::MAX,
            iabs(self.y - other.y) <= i64::MAX,
            iabs(self.z - other.z) <= i64::MAX,
        ensures
            r.x == self.x - other.x,
            r.y == self.y - other.y,
            r.z == self.z - other.z,
    {
        Vec3 { x: self.x - other.x, y: self.y - other.y, z: self.z - other.z }
    }

    pub fn sub_assign(&mut self, other: &Vec3)
        requires
            iabs(old(self).x - other.x) <= i64::MAX,
            iabs(old(self).y - other.y) <= i64::MAX,
            iabs(old(self).z - other.z) <= i64::MAX,
        ensures
            final(self).x == old(self).x - other.x,
            final(self).y == old(self).y - other.y,
            final(self).z == old(self).z - other.z,
    {
        self.x = self.x - other.x;
        self.y = self.y - other.y;
        self.z = self.z - other.z;
    }

    pub fn neg(&self) -> (r: Vec3)
        requires
            self.x > i64::MIN,
            self.y > i64::MIN,
            self.z > i64::MIN,
        ensures
            r.x == -self.x,
            r.y == -self.y,
            r.z == -self.z,
    {
        Vec3 { x: -self.x, y: -self.y, z: -self.z }
    }

    /// Componentwise (Hadamard) product, the color attenuation operation.
    pub fn mul(&self, other: &Vec3) -> (r: Vec3)
        requires
            iabs(fxmul(self.x as int, other.x as int)) <= i64::MAX,
            iabs(fxmul(self.y as int, other.y as int)) <= i64::MAX,
            iabs(fxmul(self.z as int, other.z as int)) <= i64::MAX,
        ensures
            r.x == fxmul(self.x as int, other.x as int),
            r.y == fxmul(self.y as int, other.y as int),
            r.z == fxmul(self.z as int, other.z as int),
    {
        Vec3 {
            x: fx_mul(self.x, other.x),
            y: fx_mul(self.y, other.y),
            z: fx_mul(self.z, other.z),
        }
    }

    /// Multiplication by a fixed-point scalar.
    pub fn scale(&self, t: i64) -> (r: Vec3)
        requires
            iabs(fxmul(self.x as int, t as int)) <= i64::MAX,
            iabs(fxmul(self.y as int, t as int)) <= i64::MAX,
            iabs(fxmul(self.z as int, t as int)) <= i64::MAX,
        ensures
            r.x == fxmul(self.x as int, t as int),
            r.y == fxmul(self.y as int, t as int),
            r.z == fxmul(self.z as int, t as int),
    {
        Vec3 { x: fx_mul(self.x, t), y: fx_mul(self.y, t), z: fx_mul(self.z, t) }
    }

    /// In-place multiplication by a fixed-point scalar.
    pub fn mul_assign(&mut self, t: i64)
        requires
            iabs(fxmul(old(self).x as int, t as int)) <= i64::MAX,
            iabs(fxmul(old(self).y as int, t as int)) <= i64::MAX,
            iabs(fxmul(old(self).z as int, t as int)) <= i64::MAX,
        ensures
            final(self).x == fxmul(old(self).x as int, t as int),
            final(self).y == fxmul(old(self).y as int, t as int),
            final(self).z == fxmul(old(self).z as int, t as int),
    {
        *self = self.scale(t);
    }

    /// In-place division by a fixed-point scalar.
    pub fn div_assign(&mut self, t: i64)
        requires
            t != 0,
            iabs(fxdiv(old(self).x as int, t as int)) <= i64::MAX,
            iabs(fxdiv(old(self).y as int, t as int)) <= i64::MAX,
            iabs(fxdiv(old(self).z as int, t as int)) <= i64::MAX,
        ensures
            final(self).x == fxdiv(old(self).x as int, t as int),
            final(self).y == fxdiv(old(self).y as int, t as int),
            final(self).z == fxdiv(old(self).z as int, t as int),
    {
        *self = self.div(t);
    }

    /// Division by a fixed-point scalar.
    pub fn div(&self, t: i64) -> (r: Vec3)
        requires
            t != 0,
            iabs(fxdiv(self.x as int, t as int)) <= i64::MAX,
            iabs(fxdiv(self.y as int, t as int)) <= i64::MAX,
            iabs(fxdiv(self.z as int, t as int)) <= i64::MAX,
        ensures
            r.x == fxdiv(self.x as int, t as int),
            r.y == fxdiv(self.y as int, t as int),
            r.z == fxdiv(self.z as int, t as int),
    {
        Vec3 { x: fx_div(self.x, t), y: fx_div(self.y, t), z: fx_div(self.z, t) }
    }

    /// Exact dot product at raw scale (`SCALE^2`), in a wide integer.
    pub fn dot_wide(&self, other: &Vec3) -> (r: i128)
        requires
            bounded(*self, 3_000_000_000_000),
            bounded(*other, 3_000_000_000_000),
        ensures
            r == dot_raw(*self, *other),
    {
        proof {
            lemma_mul_abs_bound(self.x as int, other.x as int, 3_000_000_000_000, 3_000_000_000_000);
            lemma_mul_abs_bound(self.y as int, other.y as int, 3_000_000_000_000, 3_000_000_000_000);
            lemma_mul_abs_bound(self.z as int, other.z as int, 3_000_000_000_000, 3_000_000_000_000);
        }
        (self.x as i128) * (other.x as i128)
            + (self.y as i128) * (other.y as i128)
            + (self.z as i128) * (other.z as i128)
    }

    /// Fixed-point dot product.
    pub fn dot(&self, other: &Vec3) -> (r: i64)
        requires
            bounded(*self, MAX_COMP as int),
            bounded(*other, MAX_COMP as int),
        ensures
            r == dot_fx(*self, *other),
    {
        let w: i128 = self.dot_wide(other);
        proof {
            lemma_dot_raw_bound(*self, *other, MAX_COMP as int, MAX_COMP as int);
            lemma_tdiv_bound(w as int, SCALE as int, 3 * (MAX_COMP as int) * (MAX_COMP as int));
        }
        let q: i128 = exec_tdiv(w, SCALE as i128);
        q as i64
    }

    /// Fixed-point squared length.
    pub fn length_squared(&self) -> (r: i64)
        requires
            bounded(*self, MAX_COMP as int),
        ensures
            r == dot_fx(*self, *self),
            r >= 0,
    {
        let r = self.dot(self);
        proof {
            lemma_dot_raw_self_nonneg(*self);
            lemma_tdiv_props(dot_raw(*self, *self), SCALE as int);
        }
        r
    }

    /// Fixed-point length: floor square root of the raw squared length.
    pub fn length(&self) -> (r: i64)
        requires
            bounded(*self, MAX_COMP as int),
        ensures
            r == length_fx(*self),
            r >= 0,
    {
        proof {
            lemma_dot_raw_self_nonneg(*self);
            lemma_dot_raw_bound(*self, *self, MAX_COMP as int, MAX_COMP as int);
            lemma_isqrt_props(dot_raw(*self, *self));
            assert(isqrt(dot_raw(*self, *self)) <= 3_000_000_000_000) by (nonlinear_arith)
                requires
                    isqrt(dot_raw(*self, *self)) >= 0,
                    isqrt(dot_raw(*self, *self)) * isqrt(dot_raw(*self, *self)) <= dot_raw(*self, *self),
                    dot_raw(*self, *self) <= 3 * (MAX_COMP as int) * (MAX_COMP as int),
            ;
        }
        let w: i128 = self.dot_wide(self);
        let s: u128 = exec_isqrt(w as u128);
        s as i64
    }

    /// Scale to unit length; undefined on the zero vector, which is excluded.
    /// The direction is preserved: each component keeps its sign.
    pub fn normalize(&self) -> (r: Vec3)
        requires
            bounded(*self, MAX_COMP as int),
            dot_raw(*self, *self) > 0,
        ensures
            r.x == norm_comp(self.x as int, *self),
            r.y == norm_comp(self.y as int, *self),
            r.z == norm_comp(self.z as int, *self),
            bounded(r, SCALE as int),
            self.x >= 0 ==> r.x >= 0,
            self.x <= 0 ==> r.x <= 0,
            self.y >= 0 ==> r.y >= 0,
            self.y <= 0 ==> r.y <= 0,
            self.z >= 0 ==> r.z >= 0,
            self.z <= 0 ==> r.z <= 0,
    {
        let len: i64 = self.length();
        proof {
            lemma_norm_comp_bounded(*self);
            lemma_tdiv_props(self.x * SCALE, length_fx(*self));
            lemma_tdiv_props(self.y * SCALE, length_fx(*self));
            lemma_tdiv_props(self.z * SCALE, length_fx(*self));
        }
        let x: i128 = exec_tdiv((self.x as i128) * (SCALE as i128), len as i128);
        let y: i128 = exec_tdiv((self.y as i128) * (SCALE as i128), len as i128);
        let z: i128 = exec_tdiv((self.z as i128) * (SCALE as i128), len as i128);
        Vec3 { x: x as i64, y: y as i64, z: z as i64 }
    }

    /// Cross product; each component rounds once.
    pub fn cross(&self, other: &Vec3) -> (r: Vec3)
        requires
            bounded(*self, MAX_COMP as int),
            bounded(*other, MAX_COMP as int),
        ensures
            (r.x as int, r.y as int, r.z as int) == cross_comps(*self, *other),
            bounded(r, 2 * (MAX_COMP as int) * (MAX_COMP as int) / (SCALE as int)),
    {
        proof {
            let m = MAX_COMP as int;
            lemma_mul_abs_bound(self.y as int, other.z as int, m, m);
            lemma_mul_abs_bound(self.z as int, other.y as int, m, m);
            lemma_mul_abs_bound(self.z as int, other.x as int, m, m);
            lemma_mul_abs_bound(self.x as int, other.z as int, m, m);
            lemma_mul_abs_bound(self.x as int, other.y as int, m, m);
            lemma_mul_abs_bound(self.y as int, other.x as int, m, m);
            lemma_cross_in_range(*self, *other);
        }
        let cx: i128 = exec_tdiv(
            (self.y as i128) * (other.z as i128) - (self.z as i128) * (other.y as i128),
            SCALE as i128,
        );
        let cy: i128 = exec_tdiv(
            (self.z as i128) * (other.x as i128) - (self.x as i128) * (other.z as i128),
            SCALE as i128,
        );
        let cz: i128 = exec_tdiv(
            (self.x as i128) * (other.y as i128) - (self.y as i128) * (other.x as i128),
            SCALE as i128,
        );
        Vec3 { x: cx as i64, y: cy as i64, z: cz as i64 }
    }
}

impl Vec3 {
    /// Mirror reflection about the surface normal `n`.
    pub fn reflect(&self, normal: &Vec3) -> (r: Vec3)
        requires
            bounded(*self, 100_000_000),
            bounded(*normal, 100_000_000),
        ensures
            (r.x as int, r.y as int, r.z as int) == reflect_comps(*self, *normal),
            bounded(r, 7_000_000_000_000),
    {
        let d: i64 = self.dot(normal);
        proof {
            lemma_dot_raw_bound(*self, *normal, 100_000_000, 100_000_000);
            lemma_tdiv_bound(dot_raw(*self, *normal), SCALE as int, (3 * 100_000_000 * 100_000_000) as int);
            lemma_fxmul_bound(2 * d, self.x as int, 60_000_000_000, 100_000_000);
            lemma_fxmul_bound(2 * d, normal.x as int, 60_000_000_000, 100_000_000);
            lemma_fxmul_bound(2 * d, normal.y as int, 60_000_000_000, 100_000_000);
            lemma_fxmul_bound(2 * d, normal.z as int, 60_000_000_000, 100_000_000);
        }
        let two_d: i64 = 2 * d;
        Vec3 {
            x: self.x - fx_mul(two_d, normal.x),
            y: self.y - fx_mul(two_d, normal.y),
            z: self.z - fx_mul(two_d, normal.z),
        }
    }

    /// Snell refraction; the caller has ruled out total internal reflection.
    pub fn refract(&self, normal: &Vec3, ref_ratio: i64) -> (r: Vec3)
        requires
            bounded(*self, SCALE as int),
            bounded(*normal, 2 * SCALE),
            0 < ref_ratio <= 10 * SCALE,
        ensures
            (r.x as int, r.y as int, r.z as int) == refract_comps(*self, *normal, ref_ratio as int),
            bounded(r, 800_000_000),
    {
        proof {
            lemma_dot_raw_bound(*self, *normal, SCALE as int, 2 * SCALE);
            lemma_tdiv_bound(dot_raw(*self, *normal), SCALE as int, 6 * (SCALE as int) * (SCALE as int));
        }
        let d: i64 = self.dot(normal);
        let dmin: i64 = if d <= SCALE { d } else { SCALE };
        let cos: i64 = -dmin;
        proof {
            lemma_fxmul_bound(cos as int, normal.x as int, 6 * SCALE, 2 * SCALE);
            lemma_fxmul_bound(cos as int, normal.y as int, 6 * SCALE, 2 * SCALE);
            lemma_fxmul_bound(cos as int, normal.z as int, 6 * SCALE, 2 * SCALE);
        }
        let ix: i64 = self.x + fx_mul(cos, normal.x);
        let iy: i64 = self.y + fx_mul(cos, normal.y);
        let iz: i64 = self.z + fx_mul(cos, normal.z);
        proof {
            lemma_fxmul_bound(ref_ratio as int, ix as int, 10 * SCALE, 13 * SCALE);
            lemma_fxmul_bound(ref_ratio as int, iy as int, 10 * SCALE, 13 * SCALE);
            lemma_fxmul_bound(ref_ratio as int, iz as int, 10 * SCALE, 13 * SCALE);
        }
        let px: i64 = fx_mul(ref_ratio, ix);
        let py: i64 = fx_mul(ref_ratio, iy);
        let pz: i64 = fx_mul(ref_ratio, iz);
        proof {
            lemma_mul_abs_bound(px as int, px as int, 130 * SCALE, 130 * SCALE);
            lemma_mul_abs_bound(py as int, py as int, 130 * SCALE, 130 * SCALE);
            lemma_mul_abs_bound(pz as int, pz as int, 130 * SCALE, 130 * SCALE);
            lemma_tdiv_bound(
                (px as int) * px + (py as int) * py + (pz as int) * pz,
                SCALE as int,
                3 * (130 * (SCALE as int)) * (130 * SCALE),
            );
        }
        let wide: i128 = (px as i128) * (px as i128) + (py as i128) * (py as i128)
            + (pz as i128) * (pz as i128);
        let lsq: i64 = exec_tdiv(wide, SCALE as i128) as i64;
        let gap: i64 = if SCALE - lsq >= 0 { SCALE - lsq } else { -(SCALE - lsq) };
        let s: i64 = fx_sqrt(gap);
        proof {
            lemma_isqrt_props(gap * SCALE);
            assert(isqrt(gap * (SCALE as int)) <= 300 * SCALE) by (nonlinear_arith)
                requires
                    isqrt(gap * (SCALE as int)) >= 0,
                    isqrt(gap * (SCALE as int)) * isqrt(gap * (SCALE as int)) <= gap * SCALE,
                    0 <= gap <= 50_701 * (SCALE as int),
            ;
            lemma_fxmul_bound(s as int, normal.x as int, 300 * SCALE, 2 * SCALE);
            lemma_fxmul_bound(s as int, normal.y as int, 300 * SCALE, 2 * SCALE);
            lemma_fxmul_bound(s as int, normal.z as int, 300 * SCALE, 2 * SCALE);
        }
        Vec3 {
            x: px - fx_mul(s, normal.x),
            y: py - fx_mul(s, normal.y),
            z: pz - fx_mul(s, normal.z),
        }
    }

    /// Uniform components in `[0, 1)` world units.
    pub fn random(rng: &mut rand::rngs::StdRng) -> (r: Vec3)
        ensures
            0 <= r.x < SCALE,
            0 <= r.y < SCALE,
            0 <= r.z < SCALE,
    {
        let x: u64 = rng_below(rng, 1_000_000);
        let y: u64 = rng_below(rng, 1_000_000);
        let z: u64 = rng_below(rng, 1_000_000);
        Vec3 { x: x as i64, y: y as i64, z: z as i64 }
    }

    /// Uniform components in `[min, max)`.
    pub fn random_range(rng: &mut rand::rngs::StdRng, min: i64, max: i64) -> (r: Vec3)
        requires
            min < max,
        ensures
            min <= r.x < max,
            min <= r.y < max,
            min <= r.z < max,
    {
        let span: u64 = ((max as i128) - (min as i128)) as u64;
        let dx: u64 = rng_below(rng, span);
        let dy: u64 = rng_below(rng, span);
        let dz: u64 = rng_below(rng, span);
        Vec3 {
            x: ((min as i128) + (dx as i128)) as i64,
            y: ((min as i128) + (dy as i128)) as i64,
            z: ((min as i128) + (dz as i128)) as i64,
        }
    }

    /// Rejection sampling: redraw until the point lies strictly inside the
    /// unit sphere.  Draws too close to the origin are also redrawn, since
    /// fixed-point normalization is ill conditioned there.
    pub fn random_in_unit_sphere(rng: &mut rand::rngs::StdRng) -> (r: Vec3)
        ensures
            bounded(r, SCALE as int),
            MIN_UNIT_RAW <= dot_raw(r, r) < (SCALE as int) * (SCALE as int),
    {
        let mut tries: u32 = 0;
        while tries < 64
            invariant
                true,
            decreases 64 - tries,
        {
            let p: Vec3 = Self::random_range(rng, -SCALE, SCALE);
            let lsq_raw: i128 = p.dot_wide(&p);
            if lsq_raw < (SCALE as i128) * (SCALE as i128) && lsq_raw >= MIN_UNIT_RAW as i128 {
                return p;
            }
            tries = tries + 1;
        }
        let fallback: Vec3 = Vec3 { x: 500_000, y: 0, z: 0 };
        proof {
            assert(500_000int * 500_000 == 250_000_000_000) by (nonlinear_arith);
        }
        fallback
    }

    /// Points in the lens disk: `z` is zero, `x` and `y` inside the unit circle.
    pub fn random_in_unit_disk(rng: &mut rand::rngs::StdRng) -> (r: Vec3)
        ensures
            bounded(r, SCALE as int),
            r.z == 0,
            dot_raw(r, r) < (SCALE as int) * (SCALE as int),
    {
        let mut tries: u32 = 0;
        while tries < 64
            invariant
                true,
            decreases 64 - tries,
        {
            let x: u64 = rng_below(rng, 2_000_000);
            let y: u64 = rng_below(rng, 2_000_000);
            let p: Vec3 = Vec3 { x: (x as i64) - SCALE, y: (y as i64) - SCALE, z: 0 };
            let lsq_raw: i128 = p.dot_wide(&p);
            if lsq_raw < (SCALE as i128) * (SCALE as i128) {
                return p;
            }
            tries = tries + 1;
        }
        Vec3 { x: 0, y: 0, z: 0 }
    }

    /// A random direction of unit length (up to fixed-point rounding).
    pub fn random_unit_vector(rng: &mut rand::rngs::StdRng) -> (r: Vec3)
        ensures
            bounded(r, SCALE as int),
            iabs(dot_raw(r, r) - (SCALE as int) * (SCALE as int)) <= 5_000_000_000,
    {
        let p: Vec3 = Self::random_in_unit_sphere(rng);
        let n: Vec3 = p.normalize();
        proof {
            lemma_normalize_unit_length(p);
            lemma_sq_eq(n.x as int, norm_comp(p.x as int, p));
            lemma_sq_eq(n.y as int, norm_comp(p.y as int, p));
            lemma_sq_eq(n.z as int, norm_comp(p.z as int, p));
        }
        n
    }
}

/// Two equal integers have equal squares.
proof fn lemma_sq_eq(a: int, b: int)
    requires
        a == b,
    ensures
        a * a == b * b,
{
}

/// The raw squared length is a sum of squares.
pub proof fn lemma_dot_raw_self_nonneg(v: Vec3)
    ensures
        dot_raw(v, v) >= 0,
{
    assert(v.x * v.x >= 0) by (nonlinear_arith);
    assert(v.y * v.y >= 0) by (nonlinear_arith);
    assert(v.z * v.z >= 0) by (nonlinear_arith);
}

/// A vector with a nonzero component has positive raw squared length.
pub proof fn lemma_dot_raw_pos(v: Vec3)
    requires
        v.x != 0 || v.y != 0 || v.z != 0,
    ensures
        dot_raw(v, v) > 0,
{
    lemma_dot_raw_self_nonneg(v);
    assert(v.x != 0 ==> v.x * v.x > 0) by (nonlinear_arith);
    assert(v.y != 0 ==> v.y * v.y > 0) by (nonlinear_arith);
    assert(v.z != 0 ==> v.z * v.z > 0) by (nonlinear_arith);
    assert(v.x * v.x >= 0) by (nonlinear_arith);
    assert(v.y * v.y >= 0) by (nonlinear_arith);
    assert(v.z * v.z >= 0) by (nonlinear_arith);
}

/// Componentwise bounds give a bound on the raw dot product.
pub proof fn lemma_dot_raw_bound(u: Vec3, v: Vec3, bu: int, bv: int)
    requires
        bounded(u, bu),
        bounded(v, bv),
    ensures
        iabs(dot_raw(u, v)) <= 3 * bu * bv,
{
    lemma_mul_abs_bound(u.x as int, v.x as int, bu, bv);
    lemma_mul_abs_bound(u.y as int, v.y as int, bu, bv);
    lemma_mul_abs_bound(u.z as int, v.z as int, bu, bv);
    assert(iabs(dot_raw(u, v)) <= 3 * bu * bv) by (nonlinear_arith)
        requires
            iabs(u.x * v.x) <= bu * bv,
            iabs(u.y * v.y) <= bu * bv,
            iabs(u.z * v.z) <= bu * bv,
            dot_raw(u, v) == u.x * v.x + u.y * v.y + u.z * v.z,
    ;
}

/// Each component of a vector is at most its fixed-point length, so the
/// normalized components are at most one world unit.
proof fn lemma_norm_comp_bounded(v: Vec3)
    requires
        bounded(v, MAX_COMP as int),
        dot_raw(v, v) > 0,
    ensures
        1 <= length_fx(v) <= 3_000_000_000_000,
        iabs(norm_comp(v.x as int, v)) <= SCALE,
        iabs(norm_comp(v.y as int, v)) <= SCALE,
        iabs(norm_comp(v.z as int, v)) <= SCALE,
{
    let d = dot_raw(v, v);
    let len = isqrt(d);
    lemma_isqrt_props(d);
    assert(len >= 1) by (nonlinear_arith)
        requires
            len >= 0,
            (len + 1) * (len + 1) > d,
            d > 0,
    ;
    lemma_dot_raw_bound(v, v, MAX_COMP as int, MAX_COMP as int);
    assert(len <= 3_000_000_000_000) by (nonlinear_arith)
        requires
            len >= 0,
            len * len <= d,
            d <= 3 * (MAX_COMP as int) * (MAX_COMP as int),
    ;
    lemma_comp_le_len(v.x as int, v);
    lemma_comp_le_len(v.y as int, v);
    lemma_comp_le_len(v.z as int, v);
}

/// A component of `v`, scaled by `SCALE` and divided by the length, has
/// magnitude at most `SCALE`.
proof fn lemma_comp_le_len(c: int, v: Vec3)
    requires
        dot_raw(v, v) > 0,
        c == v.x || c == v.y || c == v.z,
    ensures
        iabs(c) <= length_fx(v),
        iabs(norm_comp(c, v)) <= SCALE,
{
    let d = dot_raw(v, v);
    let len = isqrt(d);
    lemma_isqrt_props(d);
    assert(len >= 1) by (nonlinear_arith)
        requires
            len >= 0,
            (len + 1) * (len + 1) > d,
            d > 0,
    ;
    assert(c * c <= d) by (nonlinear_arith)
        requires
            d == dot_raw(v, v),
            c == v.x || c == v.y || c == v.z,
    ;
    assert(iabs(c) <= len) by (nonlinear_arith)
        requires
            c * c <= d,
            (len + 1) * (len + 1) > d,
            len >= 0,
    ;
    lemma_mul_abs_bound(c, SCALE as int, len, SCALE as int);
    lemma_tdiv_bound(c * SCALE, len, len * SCALE);
    vstd::arithmetic::div_mod::lemma_div_multiples_vanish(SCALE as int, len);
}

/// The cross-product components fit `i64` under the module bound.
proof fn lemma_cross_in_range(u: Vec3, v: Vec3)
    requires
        bounded(u, MAX_COMP as int),
        bounded(v, MAX_COMP as int),
    ensures
        iabs(cross_comps(u, v).0) <= 2 * (MAX_COMP as int) * (MAX_COMP as int) / (SCALE as int),
        iabs(cross_comps(u, v).1) <= 2 * (MAX_COMP as int) * (MAX_COMP as int) / (SCALE as int),
        iabs(cross_comps(u, v).2) <= 2 * (MAX_COMP as int) * (MAX_COMP as int) / (SCALE as int),
        iabs(u.y * v.z - u.z * v.y) <= 2 * (MAX_COMP as int) * (MAX_COMP as int),
        iabs(u.z * v.x - u.x * v.z) <= 2 * (MAX_COMP as int) * (MAX_COMP as int),
        iabs(u.x * v.y - u.y * v.x) <= 2 * (MAX_COMP as int) * (MAX_COMP as int),
{
    let m = MAX_COMP as int;
    lemma_mul_abs_bound(u.y as int, v.z as int, m, m);
    lemma_mul_abs_bound(u.z as int, v.y as int, m, m);
    lemma_mul_abs_bound(u.z as int, v.x as int, m, m);
    lemma_mul_abs_bound(u.x as int, v.z as int, m, m);
    lemma_mul_abs_bound(u.x as int, v.y as int, m, m);
    lemma_mul_abs_bound(u.y as int, v.x as int, m, m);
    lemma_tdiv_bound(u.y * v.z - u.z * v.y, SCALE as int, 2 * m * m);
    lemma_tdiv_bound(u.z * v.x - u.x * v.z, SCALE as int, 2 * m * m);
    lemma_tdiv_bound(u.x * v.y - u.y * v.x, SCALE as int, 2 * m * m);
}


/// Law: vector addition is commutative — components may be added in either
/// order.
pub proof fn lemma_add_commutes(a: Vec3, b: Vec3)
    ensures
        a.x + b.x == b.x + a.x,
        a.y + b.y == b.y + a.y,
        a.z + b.z == b.z + a.z,
{
}

/// Law: vector addition is associative — grouping of componentwise sums does
/// not matter.
pub proof fn lemma_add_associates(a: Vec3, b: Vec3, c: Vec3)
    ensures
        (a.x + b.x) + c.x == a.x + (b.x + c.x),
        (a.y + b.y) + c.y == a.y + (b.y + c.y),
        (a.z + b.z) + c.z == a.z + (b.z + c.z),
{
}

/// Law: scalar multiplication distributes over vector addition up to one
/// fixed-point unit per component, the single rounding the product performs.
pub proof fn lemma_scale_distributes(t: int, a: Vec3, b: Vec3)
    ensures
        iabs(fxmul(t, a.x + b.x) - (fxmul(t, a.x as int) + fxmul(t, b.x as int))) <= 1,
        iabs(fxmul(t, a.y + b.y) - (fxmul(t, a.y as int) + fxmul(t, b.y as int))) <= 1,
        iabs(fxmul(t, a.z + b.z) - (fxmul(t, a.z as int) + fxmul(t, b.z as int))) <= 1,
{
    assert(t * (a.x + b.x) == t * a.x + t * b.x) by (nonlinear_arith);
    assert(t * (a.y + b.y) == t * a.y + t * b.y) by (nonlinear_arith);
    assert(t * (a.z + b.z) == t * a.z + t * b.z) by (nonlinear_arith);
    crate::fixed::lemma_tdiv_subadd(t * a.x, t * b.x, SCALE as int);
    crate::fixed::lemma_tdiv_subadd(t * a.y, t * b.y, SCALE as int);
    crate::fixed::lemma_tdiv_subadd(t * a.z, t * b.z, SCALE as int);
}

/// Law: the cross product is orthogonal to both factors up to rounding; the
/// raw dot product of `cross(a, b)` with either factor is bounded by the sum
/// of that factor's component magnitudes.
pub proof fn lemma_cross_orthogonal(a: Vec3, b: Vec3)
    ensures
        ({
            let (cx, cy, cz) = cross_comps(a, b);
            iabs(cx * a.x + cy * a.y + cz * a.z)
                <= iabs(a.x as int) + iabs(a.y as int) + iabs(a.z as int)
            && iabs(cx * b.x + cy * b.y + cz * b.z)
                <= iabs(b.x as int) + iabs(b.y as int) + iabs(b.z as int)
        }),
{
    let s = SCALE as int;
    let rx = a.y * b.z - a.z * b.y;
    let ry = a.z * b.x - a.x * b.z;
    let rz = a.x * b.y - a.y * b.x;
    let (cx, cy, cz) = cross_comps(a, b);
    lemma_tdiv_props(rx, s);
    lemma_tdiv_props(ry, s);
    lemma_tdiv_props(rz, s);
    let ex = cx * s - rx;
    let ey = cy * s - ry;
    let ez = cz * s - rz;
    lemma_cross_dot_factor(a, b, a.x as int, a.y as int, a.z as int, cx, cy, cz, ex, ey, ez);
    lemma_cross_dot_factor(a, b, b.x as int, b.y as int, b.z as int, cx, cy, cz, ex, ey, ez);
}

/// The rounded cross product dotted with a factor is small: the exact raw
/// cross product is orthogonal, so only the rounding terms remain.
proof fn lemma_cross_dot_factor(
    a: Vec3,
    b: Vec3,
    fx: int,
    fy: int,
    fz: int,
    cx: int,
    cy: int,
    cz: int,
    ex: int,
    ey: int,
    ez: int,
)
    requires
        (fx == a.x && fy == a.y && fz == a.z) || (fx == b.x && fy == b.y && fz == b.z),
        (cx, cy, cz) == cross_comps(a, b),
        ex == cx * (SCALE as int) - (a.y * b.z - a.z * b.y),
        ey == cy * (SCALE as int) - (a.z * b.x - a.x * b.z),
        ez == cz * (SCALE as int) - (a.x * b.y - a.y * b.x),
        iabs(ex) <= SCALE - 1,
        iabs(ey) <= SCALE - 1,
        iabs(ez) <= SCALE - 1,
    ensures
        iabs(cx * fx + cy * fy + cz * fz) <= iabs(fx) + iabs(fy) + iabs(fz),
{
    let s = SCALE as int;
    let rx = a.y * b.z - a.z * b.y;
    let ry = a.z * b.x - a.x * b.z;
    let rz = a.x * b.y - a.y * b.x;
    lemma_cross_raw_orth(a.x as int, a.y as int, a.z as int, b.x as int, b.y as int, b.z as int);
    assert(rx * fx + ry * fy + rz * fz == 0);
    let tx = cx * fx;
    let ty = cy * fy;
    let tz = cz * fz;
    assert(tx * 1_000_000 == (cx * 1_000_000) * fx) by (nonlinear_arith)
        requires
            tx == cx * fx,
    ;
    assert(ty * 1_000_000 == (cy * 1_000_000) * fy) by (nonlinear_arith)
        requires
            ty == cy * fy,
    ;
    assert(tz * 1_000_000 == (cz * 1_000_000) * fz) by (nonlinear_arith)
        requires
            tz == cz * fz,
    ;
    assert((cx * 1_000_000) * fx == rx * fx + ex * fx) by (nonlinear_arith)
        requires
            cx * 1_000_000 == rx + ex,
    ;
    assert((cy * 1_000_000) * fy == ry * fy + ey * fy) by (nonlinear_arith)
        requires
            cy * 1_000_000 == ry + ey,
    ;
    assert((cz * 1_000_000) * fz == rz * fz + ez * fz) by (nonlinear_arith)
        requires
            cz * 1_000_000 == rz + ez,
    ;
    assert((tx + ty + tz) * 1_000_000 == tx * 1_000_000 + ty * 1_000_000 + tz * 1_000_000);
    lemma_mul_abs_bound(ex, fx, 999_999, iabs(fx));
    lemma_mul_abs_bound(ey, fy, 999_999, iabs(fy));
    lemma_mul_abs_bound(ez, fz, 999_999, iabs(fz));
    let aa = iabs(fx) + iabs(fy) + iabs(fz);
    assert((tx + ty + tz) * 1_000_000 == ex * fx + ey * fy + ez * fz);
    assert(iabs((tx + ty + tz) * 1_000_000) <= 999_999 * aa);
    assert(iabs(cx * fx + cy * fy + cz * fz) <= aa);
}

/// The exact (unrounded) cross product is orthogonal to both of its factors.
proof fn lemma_cross_raw_orth(ax: int, ay: int, az: int, bx: int, by: int, bz: int)
    ensures
        (ay * bz - az * by) * ax + (az * bx - ax * bz) * ay + (ax * by - ay * bx) * az == 0,
        (ay * bz - az * by) * bx + (az * bx - ax * bz) * by + (ax * by - ay * bx) * bz == 0,
{
    assert((ay * bz - az * by) * ax + (az * bx - ax * bz) * ay + (ax * by - ay * bx) * az == 0)
        by (nonlinear_arith);
    assert((ay * bz - az * by) * bx + (az * bx - ax * bz) * by + (ax * by - ay * bx) * bz == 0)
        by (nonlinear_arith);
}

/// Law: normalization yields a vector of unit length up to rounding.  For any
/// vector whose raw squared length is at least `MIN_UNIT_RAW`, the raw squared
/// length of the normalization is within half a percent of one square world
/// unit (`SCALE * SCALE`).  Vectors shorter than a two-thousandth of a world
/// unit are excluded: there the fixed-point quotient is too coarse.
pub proof fn lemma_normalize_unit_length(v: Vec3)
    requires
        bounded(v, MAX_COMP as int),
        dot_raw(v, v) >= MIN_UNIT_RAW,
    ensures
        ({
            let nx = norm_comp(v.x as int, v);
            let ny = norm_comp(v.y as int, v);
            let nz = norm_comp(v.z as int, v);
            iabs(nx * nx + ny * ny + nz * nz - (SCALE as int) * (SCALE as int)) <= 5_000_000_000
        }),
{
    let s = SCALE as int;
    let d = dot_raw(v, v);
    let len = isqrt(d);
    lemma_isqrt_props(d);
    lemma_isqrt_unique(250_000, 500);
    crate::fixed::lemma_isqrt_mono(250_000, d);
    assert(len >= 500);
    let ax = iabs(v.x as int);
    let ay = iabs(v.y as int);
    let az = iabs(v.z as int);
    let wx = ax * s;
    let wy = ay * s;
    let wz = az * s;
    let qx = wx / len;
    let qy = wy / len;
    let qz = wz / len;
    let nx = norm_comp(v.x as int, v);
    let ny = norm_comp(v.y as int, v);
    let nz = norm_comp(v.z as int, v);
    lemma_tdiv_props(v.x * s, len);
    lemma_tdiv_props(v.y * s, len);
    lemma_tdiv_props(v.z * s, len);
    assert(iabs(v.x * s) == ax * s);
    assert(iabs(v.y * s) == ay * s);
    assert(iabs(v.z * s) == az * s);
    assert(iabs(nx) == qx && iabs(ny) == qy && iabs(nz) == qz);
    assert(nx * nx == qx * qx && ny * ny == qy * qy && nz * nz == qz * qz) by (nonlinear_arith)
        requires
            iabs(nx) == qx && iabs(ny) == qy && iabs(nz) == qz,
    ;
    lemma_comp_le_len(v.x as int, v);
    lemma_comp_le_len(v.y as int, v);
    lemma_comp_le_len(v.z as int, v);
    assert(qx <= s && qy <= s && qz <= s);
    vstd::arithmetic::div_mod::lemma_fundamental_div_mod(wx, len);
    vstd::arithmetic::div_mod::lemma_fundamental_div_mod(wy, len);
    vstd::arithmetic::div_mod::lemma_fundamental_div_mod(wz, len);
    vstd::arithmetic::div_mod::lemma_mod_bound(wx, len);
    vstd::arithmetic::div_mod::lemma_mod_bound(wy, len);
    vstd::arithmetic::div_mod::lemma_mod_bound(wz, len);
    vstd::arithmetic::div_mod::lemma_div_pos_is_pos(wx, len);
    vstd::arithmetic::div_mod::lemma_div_pos_is_pos(wy, len);
    vstd::arithmetic::div_mod::lemma_div_pos_is_pos(wz, len);
    assert(qx * len <= wx < (qx + 1) * len) by (nonlinear_arith)
        requires
            wx == len * qx + wx % len,
            0 <= wx % len < len,
    ;
    assert(qy * len <= wy < (qy + 1) * len) by (nonlinear_arith)
        requires
            wy == len * qy + wy % len,
            0 <= wy % len < len,
    ;
    assert(qz * len <= wz < (qz + 1) * len) by (nonlinear_arith)
        requires
            wz == len * qz + wz % len,
            0 <= wz % len < len,
    ;
    let qq = qx * qx + qy * qy + qz * qz;
    // the squared scaled magnitudes sum to the raw squared length times the
    // square of the scale
    assert(wx * wx == (v.x * v.x) * 1_000_000_000_000) by (nonlinear_arith)
        requires
            wx == iabs(v.x as int) * 1_000_000,
    ;
    assert(wy * wy == (v.y * v.y) * 1_000_000_000_000) by (nonlinear_arith)
        requires
            wy == iabs(v.y as int) * 1_000_000,
    ;
    assert(wz * wz == (v.z * v.z) * 1_000_000_000_000) by (nonlinear_arith)
        requires
            wz == iabs(v.z as int) * 1_000_000,
    ;
    assert(wx * wx + wy * wy + wz * wz == d * 1_000_000_000_000);
    // upper bound: each quotient times the length is below the scaled
    // magnitude, so the sum of squares is below the scaled squared length
    assert((qx * len) * (qx * len) <= wx * wx) by (nonlinear_arith)
        requires
            0 <= qx * len <= wx,
    ;
    assert((qy * len) * (qy * len) <= wy * wy) by (nonlinear_arith)
        requires
            0 <= qy * len <= wy,
    ;
    assert((qz * len) * (qz * len) <= wz * wz) by (nonlinear_arith)
        requires
            0 <= qz * len <= wz,
    ;
    assert((qx * len) * (qx * len) == (qx * qx) * (len * len)) by (nonlinear_arith);
    assert((qy * len) * (qy * len) == (qy * qy) * (len * len)) by (nonlinear_arith);
    assert((qz * len) * (qz * len) == (qz * qz) * (len * len)) by (nonlinear_arith);
    assert(qq * (len * len) == (qx * qx) * (len * len) + (qy * qy) * (len * len)
        + (qz * qz) * (len * len)) by (nonlinear_arith)
        requires
            qq == qx * qx + qy * qy + qz * qz,
    ;
    assert(qq * (len * len) <= d * 1_000_000_000_000);
    assert(d * 1_000_000_000_000 < ((len + 1) * (len + 1)) * 1_000_000_000_000);
    assert(qq <= 1_000_000_000_000 + 5_000_000_000) by (nonlinear_arith)
        requires
            qq * (len * len) < ((len + 1) * (len + 1)) * 1_000_000_000_000,
            len >= 500,
            qq >= 0,
    ;
    // lower bound: each quotient plus one, times the length, exceeds the
    // scaled magnitude
    assert(((qx + 1) * len) * ((qx + 1) * len) > wx * wx) by (nonlinear_arith)
        requires
            (qx + 1) * len > wx >= 0,
    ;
    assert(((qy + 1) * len) * ((qy + 1) * len) > wy * wy) by (nonlinear_arith)
        requires
            (qy + 1) * len > wy >= 0,
    ;
    assert(((qz + 1) * len) * ((qz + 1) * len) > wz * wz) by (nonlinear_arith)
        requires
            (qz + 1) * len > wz >= 0,
    ;
    assert(((qx + 1) * len) * ((qx + 1) * len) == (qx * qx + 2 * qx + 1) * (len * len))
        by (nonlinear_arith);
    assert(((qy + 1) * len) * ((qy + 1) * len) == (qy * qy + 2 * qy + 1) * (len * len))
        by (nonlinear_arith);
    assert(((qz + 1) * len) * ((qz + 1) * len) == (qz * qz + 2 * qz + 1) * (len * len))
        by (nonlinear_arith);
    let pp = qq + 2 * (qx + qy + qz) + 3;
    assert(pp * (len * len) == (qx * qx + 2 * qx + 1) * (len * len)
        + (qy * qy + 2 * qy + 1) * (len * len) + (qz * qz + 2 * qz + 1) * (len * len))
        by (nonlinear_arith)
        requires
            pp == qq + 2 * (qx + qy + qz) + 3,
            qq == qx * qx + qy * qy + qz * qz,
    ;
    assert(pp * (len * len) > d * 1_000_000_000_000);
    assert(d * 1_000_000_000_000 >= (len * len) * 1_000_000_000_000);
    assert(pp > 1_000_000_000_000) by (nonlinear_arith)
        requires
            pp * (len * len) > (len * len) * 1_000_000_000_000,
            len > 0,
    ;
    assert(qx + qy + qz <= 3 * s);
    
    assert(qq >= 1_000_000_000_000 - 5_000_000_000);
    assert((SCALE as int) * (SCALE as int) == 1_000_000_000_000) by (nonlinear_arith);
}

} // verus!
