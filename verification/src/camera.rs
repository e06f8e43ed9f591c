//! The camera: an orthonormal viewing basis, a focal-plane viewport, and
//! defocus blur from a lens disk.

use vstd::prelude::*;
use crate::fixed::{
    SCALE, iabs, tdiv, fxmul, fxdiv, lemma_tdiv_bound, lemma_fxmul_bound, lemma_mul_abs_bound,
    exec_tdiv, fx_mul,
};
use crate::vec3::{Vec3, Point3, bounded, dot_raw, unit_vec, cross_comps, lemma_dot_raw_bound};
use crate::ray::{Ray, MAX_PT, MAX_DIR, ray_wf};

verus! {

pub struct Camera {
    pub origin: Point3,
    pub lower_left_corner: Point3,
    pub horizontal: Vec3,
    pub vertical: Vec3,
    pub lens_radius: i64,
    pub basis_u: Vec3,
    pub basis_v: Vec3,
    pub basis_w: Vec3,
}

/// The vector from the look-at target to the eye.
pub open spec fn view_dir(look_from: Point3, look_at: Point3) -> Vec3 {
    Vec3 {
        x: (look_from.x - look_at.x) as i64,
        y: (look_from.y - look_at.y) as i64,
        z: (look_from.z - look_at.z) as i64,
    }
}

/// The unnormalized first basis vector: the up hint crossed with the view
/// normal.
pub open spec fn basis_u_raw(look_from: Point3, look_at: Point3, vup: Vec3) -> Vec3 {
    let w = unit_vec(view_dir(look_from, look_at));
    Vec3 {
        x: cross_comps(vup, w).0 as i64,
        y: cross_comps(vup, w).1 as i64,
        z: cross_comps(vup, w).2 as i64,
    }
}

/// Field bounds on which `get_ray` arithmetic is proved in range.
pub open spec fn camera_wf(c: Camera) -> bool {
    bounded(c.origin, 1_000_000_000)
        && bounded(c.lower_left_corner, 1_700_000_000)
        && iabs(c.lower_left_corner.x - c.origin.x) <= 500_000_000
        && iabs(c.lower_left_corner.y - c.origin.y) <= 500_000_000
        && iabs(c.lower_left_corner.z - c.origin.z) <= 500_000_000
        && bounded(c.horizontal, 100_000_000)
        && bounded(c.vertical, 100_000_000)
        && 0 <= c.lens_radius <= 5_000_000
        && bounded(c.basis_u, SCALE as int)
        && bounded(c.basis_v, 2 * SCALE)
        && bounded(c.basis_w, SCALE as int)
}

/// The ray produced for screen coordinates `(s, t)` and lens-disk point
/// `rd`: the origin moves by the lens offset, the direction aims from there
/// at the viewport point.
pub open spec fn get_ray_spec(c: Camera, s: int, t: int, rd: Vec3) -> Ray {
    let ox = fxmul(c.basis_u.x as int, fxmul(c.lens_radius as int, rd.x as int)) + fxmul(
        c.basis_v.x as int,
        fxmul(c.lens_radius as int, rd.y as int),
    );
    let oy = fxmul(c.basis_u.y as int, fxmul(c.lens_radius as int, rd.x as int)) + fxmul(
        c.basis_v.y as int,
        fxmul(c.lens_radius as int, rd.y as int),
    );
    let oz = fxmul(c.basis_u.z as int, fxmul(c.lens_radius as int, rd.x as int)) + fxmul(
        c.basis_v.z as int,
        fxmul(c.lens_radius as int, rd.y as int),
    );
    let origin = Vec3 {
        x: (c.origin.x + ox) as i64,
        y: (c.origin.y + oy) as i64,
        z: (c.origin.z + oz) as i64,
    };
    let direction = Vec3 {
        x: (c.lower_left_corner.x + fxmul(c.horizontal.x as int, s) + fxmul(
            c.vertical.x as int,
            t,
        ) - origin.x) as i64,
        y: (c.lower_left_corner.y + fxmul(c.horizontal.y as int, s) + fxmul(
            c.vertical.y as int,
            t,
        ) - origin.y) as i64,
        z: (c.lower_left_corner.z + fxmul(c.horizontal.z as int, s) + fxmul(
            c.vertical.z as int,
            t,
        ) - origin.z) as i64,
    };
    Ray { origin, direction }
}

impl Camera {
    /// Build the viewing basis and focal-plane viewport.  The vertical field
    /// of view enters as the tangent of its half angle, in fixed point; the
    /// product bounds keep the viewport within the verified coordinate
    /// budget.
    #[verifier::rlimit(100)]
    pub fn new(
        look_from: Point3,
        look_at: Point3,
        vup: Point3,
        half_tangent: i64,
        aspect_ratio: i64,
        aperture: i64,
        focus_distance: i64,
    ) -> (c: Camera)
        requires
            bounded(look_from, 1_000_000_000),
            bounded(look_at, 1_000_000_000),
            bounded(vup, SCALE as int),
            dot_raw(view_dir(look_from, look_at), view_dir(look_from, look_at)) > 0,
            dot_raw(
                basis_u_raw(look_from, look_at, vup),
                basis_u_raw(look_from, look_at, vup),
            ) > 0,
            0 < half_tangent <= 10_000_000,
            0 < aspect_ratio <= 10_000_000,
            0 <= aperture <= 10_000_000,
            0 < focus_distance <= 300_000_000,
            iabs(fxmul(focus_distance as int, fxmul(aspect_ratio as int, 2 * half_tangent)))
                <= 100_000_000,
            iabs(fxmul(focus_distance as int, 2 * half_tangent)) <= 50_000_000,
        ensures
            camera_wf(c),
            c.origin == look_from,
            c.lens_radius == tdiv(aperture as int, 2),
            c.basis_w == unit_vec(view_dir(look_from, look_at)),
            c.basis_u == unit_vec(basis_u_raw(look_from, look_at, vup)),
            (c.basis_v.x as int, c.basis_v.y as int, c.basis_v.z as int) == cross_comps(
                c.basis_w,
                c.basis_u,
            ),
            ({
                let hv = fxmul(focus_distance as int, fxmul(aspect_ratio as int, 2 * half_tangent));
                c.horizontal.x == fxmul(c.basis_u.x as int, hv) && c.horizontal.y == fxmul(
                    c.basis_u.y as int,
                    hv,
                ) && c.horizontal.z == fxmul(c.basis_u.z as int, hv)
            }),
            ({
                let vv = fxmul(focus_distance as int, 2 * half_tangent);
                c.vertical.x == fxmul(c.basis_v.x as int, vv) && c.vertical.y == fxmul(
                    c.basis_v.y as int,
                    vv,
                ) && c.vertical.z == fxmul(c.basis_v.z as int, vv)
            }),
            c.lower_left_corner.x == look_from.x - fxdiv(c.horizontal.x as int, 2 * SCALE) - fxdiv(
                c.vertical.x as int,
                2 * SCALE,
            ) - fxmul(c.basis_w.x as int, focus_distance as int),
            c.lower_left_corner.y == look_from.y - fxdiv(c.horizontal.y as int, 2 * SCALE) - fxdiv(
                c.vertical.y as int,
                2 * SCALE,
            ) - fxmul(c.basis_w.y as int, focus_distance as int),
            c.lower_left_corner.z == look_from.z - fxdiv(c.horizontal.z as int, 2 * SCALE) - fxdiv(
                c.vertical.z as int,
                2 * SCALE,
            ) - fxmul(c.basis_w.z as int, focus_distance as int),
    {
        let diff: Vec3 = look_from.sub(&look_at);
        proof {
            assert(diff == view_dir(look_from, look_at));
        }
        let w: Vec3 = diff.normalize();
        proof {
            assert(w == unit_vec(diff));
            lemma_cross_bound(vup, w, SCALE as int, SCALE as int);
        }
        let cu: Vec3 = vup.cross(&w);
        proof {
            assert(cu == basis_u_raw(look_from, look_at, vup));
        }
        let u: Vec3 = cu.normalize();
        proof {
            lemma_cross_bound(w, u, SCALE as int, SCALE as int);
        }
        let v: Vec3 = w.cross(&u);
        proof {
            assert(bounded(v, 2 * SCALE));
        }
        let vh: i64 = 2 * half_tangent;
        proof {
            lemma_fxmul_bound(aspect_ratio as int, vh as int, 10_000_000, 20_000_000);
        }
        let vw: i64 = fx_mul(aspect_ratio, vh);
        proof {
            lemma_fxmul_bound(focus_distance as int, vw as int, 300_000_000, 200_000_000);
            lemma_fxmul_bound(focus_distance as int, vh as int, 300_000_000, 20_000_000);
        }
        let hv: i64 = fx_mul(focus_distance, vw);
        let vv: i64 = fx_mul(focus_distance, vh);
        proof {
            lemma_scale_all(u, hv as int, SCALE as int, 100_000_000);
            lemma_scale_all(v, vv as int, 2 * SCALE, 50_000_000);
        }
        let horizontal: Vec3 = u.scale(hv);
        let vertical: Vec3 = v.scale(vv);
        proof {
            lemma_tdiv_bound(aperture as int, 2, 10_000_000);
            crate::fixed::lemma_tdiv_props(aperture as int, 2);
        }
        let lens_radius: i64 = exec_tdiv(aperture as i128, 2) as i64;
        proof {
            lemma_scale_all(w, focus_distance as int, SCALE as int, 300_000_000);
            lemma_half_bound(horizontal.x as int, 100_000_000);
            lemma_half_bound(horizontal.y as int, 100_000_000);
            lemma_half_bound(horizontal.z as int, 100_000_000);
            lemma_half_bound(vertical.x as int, 100_000_000);
            lemma_half_bound(vertical.y as int, 100_000_000);
            lemma_half_bound(vertical.z as int, 100_000_000);
        }
        let half_h: Vec3 = horizontal.div(2 * SCALE);
        let half_v: Vec3 = vertical.div(2 * SCALE);
        let focus_w: Vec3 = w.scale(focus_distance);
        let lower_left_corner: Vec3 = look_from.sub(&half_h).sub(&half_v).sub(&focus_w);
        Camera {
            origin: look_from,
            lower_left_corner,
            horizontal,
            vertical,
            lens_radius,
            basis_u: u,
            basis_v: v,
            basis_w: w,
        }
    }

    /// The primary ray for normalized screen coordinates `(s, t)`, with the
    /// lens offset drawn beforehand: origin shifted on the lens disk, aimed
    /// at the viewport point.
    /// The lens-disk offset of the ray origin.
    #[verifier::rlimit(100)]
    fn lens_offset(&self, rd: &Vec3) -> (o: Vec3)
        requires
            camera_wf(*self),
            bounded(*rd, SCALE as int),
        ensures
            bounded(o, 15_000_000),
            o.x == fxmul(self.basis_u.x as int, fxmul(self.lens_radius as int, rd.x as int))
                + fxmul(self.basis_v.x as int, fxmul(self.lens_radius as int, rd.y as int)),
            o.y == fxmul(self.basis_u.y as int, fxmul(self.lens_radius as int, rd.x as int))
                + fxmul(self.basis_v.y as int, fxmul(self.lens_radius as int, rd.y as int)),
            o.z == fxmul(self.basis_u.z as int, fxmul(self.lens_radius as int, rd.x as int))
                + fxmul(self.basis_v.z as int, fxmul(self.lens_radius as int, rd.y as int)),
    {
        proof {
            lemma_fxmul_bound(self.lens_radius as int, rd.x as int, 5_000_000, SCALE as int);
            lemma_fxmul_bound(self.lens_radius as int, rd.y as int, 5_000_000, SCALE as int);
        }
        let ox: i64 = fx_mul(self.lens_radius, rd.x);
        let oy: i64 = fx_mul(self.lens_radius, rd.y);
        proof {
            lemma_scale_all(self.basis_u, ox as int, SCALE as int, 5_000_000);
            lemma_scale_all(self.basis_v, oy as int, 2 * SCALE, 5_000_000);
        }
        self.basis_u.scale(ox).add(&self.basis_v.scale(oy))
    }

    #[verifier::rlimit(100)]
    pub fn get_ray_with(&self, s: i64, t: i64, rd: &Vec3) -> (r: Ray)
        requires
            camera_wf(*self),
            0 <= s <= 2 * SCALE,
            0 <= t <= 2 * SCALE,
            bounded(*rd, SCALE as int),
        ensures
            ray_wf(r),
            r == get_ray_spec(*self, s as int, t as int, *rd),
    {
        let offset: Vec3 = self.lens_offset(rd);
        let origin: Vec3 = self.origin.add(&offset);
        proof {
            lemma_scale_all(self.horizontal, s as int, 100_000_000, 2 * SCALE);
            lemma_scale_all(self.vertical, t as int, 100_000_000, 2 * SCALE);
        }
        let direction: Vec3 = self.lower_left_corner.add(&self.horizontal.scale(s)).add(
            &self.vertical.scale(t),
        ).sub(&origin);
        let r: Ray = Ray { origin, direction };
        proof {
            let sp = get_ray_spec(*self, s as int, t as int, *rd);
            assert(origin.x == sp.origin.x && origin.y == sp.origin.y && origin.z == sp.origin.z);
            assert(direction.x == sp.direction.x && direction.y == sp.direction.y && direction.z
                == sp.direction.z);
        }
        r
    }

    /// The primary ray for `(s, t)` with a random lens-disk offset: the
    /// result is the deterministic aim of `get_ray_spec` at some point of
    /// the lens disk.
    pub fn get_ray(&self, s: i64, t: i64, rng: &mut rand::rngs::StdRng) -> (r: Ray)
        requires
            camera_wf(*self),
            0 <= s <= 2 * SCALE,
            0 <= t <= 2 * SCALE,
        ensures
            ray_wf(r),
            exists|rd: Vec3|
                bounded(rd, SCALE as int) && rd.z == 0 && dot_raw(rd, rd) < 1_000_000_000_000
                    && r == #[trigger] get_ray_spec(*self, s as int, t as int, rd),
    {
        let rd: Vec3 = Vec3::random_in_unit_disk(rng);
        let r: Ray = self.get_ray_with(s, t, &rd);
        proof {
            assert(bounded(rd, SCALE as int) && rd.z == 0 && dot_raw(rd, rd)
                < 1_000_000_000_000 && r == get_ray_spec(*self, s as int, t as int, rd));
        }
        r
    }
}

/// Scaling a componentwise-bounded vector by a bounded factor keeps each
/// component within the product of the bounds, rescaled.
proof fn lemma_scale_all(v: Vec3, t: int, bv: int, bt: int)
    requires
        bounded(v, bv),
        iabs(t) <= bt,
        bv >= 0,
        bt >= 0,
    ensures
        iabs(fxmul(v.x as int, t)) <= (bv * bt) / (SCALE as int),
        iabs(fxmul(v.y as int, t)) <= (bv * bt) / (SCALE as int),
        iabs(fxmul(v.z as int, t)) <= (bv * bt) / (SCALE as int),
{
    lemma_fxmul_bound(v.x as int, t, bv, bt);
    lemma_fxmul_bound(v.y as int, t, bv, bt);
    lemma_fxmul_bound(v.z as int, t, bv, bt);
}

/// The cross product of componentwise-bounded vectors is componentwise
/// bounded by twice the product of the bounds, rescaled.
proof fn lemma_cross_bound(u: Vec3, v: Vec3, bu: int, bv: int)
    requires
        bounded(u, bu),
        bounded(v, bv),
        bu >= 0,
        bv >= 0,
    ensures
        iabs(cross_comps(u, v).0) <= (2 * (bu * bv)) / (SCALE as int),
        iabs(cross_comps(u, v).1) <= (2 * (bu * bv)) / (SCALE as int),
        iabs(cross_comps(u, v).2) <= (2 * (bu * bv)) / (SCALE as int),
{
    lemma_mul_abs_bound(u.y as int, v.z as int, bu, bv);
    lemma_mul_abs_bound(u.z as int, v.y as int, bu, bv);
    lemma_mul_abs_bound(u.z as int, v.x as int, bu, bv);
    lemma_mul_abs_bound(u.x as int, v.z as int, bu, bv);
    lemma_mul_abs_bound(u.x as int, v.y as int, bu, bv);
    lemma_mul_abs_bound(u.y as int, v.x as int, bu, bv);
    lemma_tdiv_bound(u.y * v.z - u.z * v.y, SCALE as int, 2 * (bu * bv));
    lemma_tdiv_bound(u.z * v.x - u.x * v.z, SCALE as int, 2 * (bu * bv));
    lemma_tdiv_bound(u.x * v.y - u.y * v.x, SCALE as int, 2 * (bu * bv));
}

/// Dividing by two world units halves the magnitude bound.
proof fn lemma_half_bound(a: int, b: int)
    requires
        iabs(a) <= b,
        b >= 0,
    ensures
        iabs(fxdiv(a, 2 * SCALE)) <= b / 2,
{
    lemma_mul_abs_bound(a, SCALE as int, b, SCALE as int);
    lemma_tdiv_bound(a * SCALE, 2 * SCALE, b * SCALE);
    assert((b * (SCALE as int)) / (2 * SCALE) == b / 2) by (nonlinear_arith)
        requires
            b >= 0,
    ;
}

} // verus!
