//! Scene geometry: spheres, the intersection record, and the scene
//! collection with closest-hit selection.

use vstd::prelude::*;
use crate::fixed::{
    SCALE, iabs, tdiv, isqrt, fxmul, fxdiv, lemma_isqrt_props, lemma_tdiv_props,
    lemma_tdiv_bound, lemma_mul_abs_bound, exec_tdiv, exec_isqrt,
};
use crate::vec3::{
    Vec3, Point3, bounded, dot_raw, lemma_dot_raw_bound, lemma_dot_raw_self_nonneg,
};
use crate::ray::{Ray, MAX_PT, MAX_DIR, ray_wf, at_comp};
use crate::materials::{Material, material_wf};

verus! {

/// Bound on sphere centers and radii.
pub const MAX_OBJ: i64 = 1_000_000_000;

/// A surface intersection: hit point, normal oriented against the incoming
/// ray, ray parameter, orientation flag, and the material that was hit.
#[derive(Clone, Copy, Debug)]
pub struct HitRecord {
    pub p: Point3,
    pub normal: Vec3,
    pub t: i64,
    pub front_face: bool,
    pub material: Material,
}

impl HitRecord {
    /// Orient the outward normal against the incoming ray.
    pub fn new(ray: &Ray, p: Point3, outward_normal: Vec3, t: i64, material: Material) -> (r:
        HitRecord)
        requires
            bounded(ray.direction, MAX_DIR as int),
            bounded(outward_normal, 2 * SCALE),
            outward_normal.x > i64::MIN,
            outward_normal.y > i64::MIN,
            outward_normal.z > i64::MIN,
        ensures
            r.p == p,
            r.t == t,
            r.material == material,
            r.front_face == (dot_raw(ray.direction, outward_normal) < 0),
            r.front_face ==> r.normal == outward_normal,
            !r.front_face ==> (r.normal.x == -outward_normal.x && r.normal.y
                == -outward_normal.y && r.normal.z == -outward_normal.z),
    {
        let fd: i128 = ray.direction.dot_wide(&outward_normal);
        let front_face: bool = fd < 0;
        let normal: Vec3 = if front_face {
            outward_normal
        } else {
            Vec3 { x: -outward_normal.x, y: -outward_normal.y, z: -outward_normal.z }
        };
        HitRecord { p, normal, t, front_face, material }
    }
}

#[derive(Clone, Copy, Debug)]
pub struct Sphere {
    pub center: Point3,
    pub radius: i64,
    pub material: Material,
}

/// A sphere the intersection arithmetic is proved in bounds for.
pub open spec fn sphere_wf(s: Sphere) -> bool {
    bounded(s.center, MAX_OBJ as int) && 0 < s.radius <= MAX_OBJ && material_wf(s.material)
}

/// Squared length of the ray direction (raw scale).
pub open spec fn sphere_a(s: Sphere, r: Ray) -> int {
    dot_raw(r.direction, r.direction)
}

/// Half the linear coefficient of the intersection quadratic (raw scale).
pub open spec fn sphere_half_b(s: Sphere, r: Ray) -> int {
    (r.origin.x - s.center.x) * r.direction.x + (r.origin.y - s.center.y) * r.direction.y + (
    r.origin.z - s.center.z) * r.direction.z
}

/// Constant coefficient: squared center distance minus squared radius.
pub open spec fn sphere_c(s: Sphere, r: Ray) -> int {
    (r.origin.x - s.center.x) * (r.origin.x - s.center.x) + (r.origin.y - s.center.y) * (
    r.origin.y - s.center.y) + (r.origin.z - s.center.z) * (r.origin.z - s.center.z) - s.radius
        * s.radius
}

/// Discriminant of the intersection quadratic (raw scale squared).
pub open spec fn sphere_disc(s: Sphere, r: Ray) -> int {
    sphere_half_b(s, r) * sphere_half_b(s, r) - sphere_a(s, r) * sphere_c(s, r)
}

/// The nearer intersection parameter, in fixed point.
pub open spec fn root_near(s: Sphere, r: Ray) -> int {
    tdiv((-sphere_half_b(s, r) - isqrt(sphere_disc(s, r))) * SCALE, sphere_a(s, r))
}

/// The farther intersection parameter, in fixed point.
pub open spec fn root_far(s: Sphere, r: Ray) -> int {
    tdiv((-sphere_half_b(s, r) + isqrt(sphere_disc(s, r))) * SCALE, sphere_a(s, r))
}

/// Root selection: no root on a negative discriminant or a degenerate
/// direction; otherwise the nearer root if it lies in range, else the
/// farther, else none.
pub open spec fn chosen_root(s: Sphere, r: Ray, t_min: int, t_max: int) -> Option<int> {
    if sphere_a(s, r) == 0 || sphere_disc(s, r) < 0 {
        None
    } else if t_min <= root_near(s, r) && root_near(s, r) <= t_max {
        Some(root_near(s, r))
    } else if t_min <= root_far(s, r) && root_far(s, r) <= t_max {
        Some(root_far(s, r))
    } else {
        None
    }
}

/// One component of the outward normal: the offset from the center, divided
/// by the radius.
pub open spec fn outward_comp(p_c: int, center_c: int, radius: int) -> int {
    fxdiv(p_c - center_c, radius)
}

/// The full intersection outcome.  A hit whose point or normal would leave
/// the fixed-point coordinate range is dropped: with well-formed scenes the
/// true hit point always lies well inside that range.
pub open spec fn sphere_hit_spec(s: Sphere, r: Ray, t_min: int, t_max: int) -> Option<HitRecord> {
    match chosen_root(s, r, t_min, t_max) {
        None => None,
        Some(t) => {
            let px = at_comp(r.origin.x as int, t, r.direction.x as int);
            let py = at_comp(r.origin.y as int, t, r.direction.y as int);
            let pz = at_comp(r.origin.z as int, t, r.direction.z as int);
            if iabs(px) <= MAX_PT && iabs(py) <= MAX_PT && iabs(pz) <= MAX_PT {
                let nx = outward_comp(px, s.center.x as int, s.radius as int);
                let ny = outward_comp(py, s.center.y as int, s.radius as int);
                let nz = outward_comp(pz, s.center.z as int, s.radius as int);
                if iabs(nx) <= 2 * SCALE && iabs(ny) <= 2 * SCALE && iabs(nz) <= 2 * SCALE {
                    let outward = Vec3 { x: nx as i64, y: ny as i64, z: nz as i64 };
                    let p = Vec3 { x: px as i64, y: py as i64, z: pz as i64 };
                    let ff = dot_raw(r.direction, outward) < 0;
                    Some(
                        HitRecord {
                            p,
                            normal: if ff {
                                outward
                            } else {
                                Vec3 {
                                    x: (-outward.x) as i64,
                                    y: (-outward.y) as i64,
                                    z: (-outward.z) as i64,
                                }
                            },
                            t: t as i64,
                            front_face: ff,
                            material: s.material,
                        },
                    )
                } else {
                    None
                }
            } else {
                None
            }
        },
    }
}

impl Sphere {
    /// Nearest intersection of the ray with this sphere in `[t_min, t_max]`.
    pub fn hit(&self, ray: &Ray, t_min: i64, t_max: i64) -> (res: Option<HitRecord>)
        requires
            sphere_wf(*self),
            ray_wf(*ray),
        ensures
            res == sphere_hit_spec(*self, *ray, t_min as int, t_max as int),
            res matches Some(rec) ==> (t_min <= rec.t <= t_max && bounded(rec.p, MAX_PT as int)
                && bounded(rec.normal, 2 * SCALE) && rec.material == self.material && sphere_a(
                *self,
                *ray,
            ) > 0),
    {
        let oc: Vec3 = Vec3 {
            x: ray.origin.x - self.center.x,
            y: ray.origin.y - self.center.y,
            z: ray.origin.z - self.center.z,
        };
        proof {
            lemma_dot_raw_bound(ray.direction, ray.direction, MAX_DIR as int, MAX_DIR as int);
            lemma_dot_raw_bound(oc, ray.direction, 3_000_000_000, MAX_DIR as int);
            lemma_dot_raw_bound(oc, oc, 3_000_000_000, 3_000_000_000);
            lemma_dot_raw_self_nonneg(ray.direction);
            lemma_mul_abs_bound(self.radius as int, self.radius as int, MAX_OBJ as int, MAX_OBJ as int);
        }
        let a: i128 = ray.direction.dot_wide(&ray.direction);
        if a == 0 {
            return None;
        }
        let half_b: i128 = oc.dot_wide(&ray.direction);
        let c_term: i128 = oc.dot_wide(&oc) - (self.radius as i128) * (self.radius as i128);
        proof {
            assert(iabs(half_b as int) <= 9_000_000_000_000_000_000);
            assert(iabs(a as int) <= 3_000_000_000_000_000_000);
            assert(iabs(c_term as int) <= 28_000_000_000_000_000_000);
            lemma_mul_abs_bound(half_b as int, half_b as int, 9_000_000_000_000_000_000, 9_000_000_000_000_000_000);
            lemma_mul_abs_bound(a as int, c_term as int, 3_000_000_000_000_000_000, 28_000_000_000_000_000_000);
        }
        let disc: i128 = half_b * half_b - a * c_term;
        if disc < 0 {
            return None;
        }
        proof {
            lemma_isqrt_props(disc as int);
            assert(isqrt(disc as int) <= 0x10_0000_0000_0000_0000) by (nonlinear_arith)
                requires
                    isqrt(disc as int) >= 0,
                    isqrt(disc as int) * isqrt(disc as int) <= disc,
                    disc <= 170_000_000_000_000_000_000_000_000_000_000_000_000,
            ;
        }
        let sqrtd: i128 = exec_isqrt(disc as u128) as i128;
        proof {
            lemma_mul_abs_bound(
                -(half_b as int) - sqrtd,
                SCALE as int,
                0x20_0000_0000_0000_0000,
                SCALE as int,
            );
            lemma_mul_abs_bound(
                -(half_b as int) + sqrtd,
                SCALE as int,
                0x20_0000_0000_0000_0000,
                SCALE as int,
            );
        }
        let root1: i128 = exec_tdiv((-half_b - sqrtd) * (SCALE as i128), a);
        let root: i128 = if (t_min as i128) <= root1 && root1 <= (t_max as i128) {
            root1
        } else {
            let root2: i128 = exec_tdiv((-half_b + sqrtd) * (SCALE as i128), a);
            if (t_min as i128) <= root2 && root2 <= (t_max as i128) {
                root2
            } else {
                return None;
            }
        };
        let t: i64 = root as i64;
        proof {
            lemma_mul_abs_bound(root as int, ray.direction.x as int, 0x8000_0000_0000_0000, MAX_DIR as int);
            lemma_mul_abs_bound(root as int, ray.direction.y as int, 0x8000_0000_0000_0000, MAX_DIR as int);
            lemma_mul_abs_bound(root as int, ray.direction.z as int, 0x8000_0000_0000_0000, MAX_DIR as int);
        }
        let px: i128 = (ray.origin.x as i128) + exec_tdiv(root * (ray.direction.x as i128), SCALE as i128);
        let py: i128 = (ray.origin.y as i128) + exec_tdiv(root * (ray.direction.y as i128), SCALE as i128);
        let pz: i128 = (ray.origin.z as i128) + exec_tdiv(root * (ray.direction.z as i128), SCALE as i128);
        if !(-(MAX_PT as i128) <= px && px <= MAX_PT as i128 && -(MAX_PT as i128) <= py && py
            <= MAX_PT as i128 && -(MAX_PT as i128) <= pz && pz <= MAX_PT as i128) {
            return None;
        }
        proof {
            lemma_mul_abs_bound(px - self.center.x, SCALE as int, 3_000_000_000, SCALE as int);
            lemma_mul_abs_bound(py - self.center.y, SCALE as int, 3_000_000_000, SCALE as int);
            lemma_mul_abs_bound(pz - self.center.z, SCALE as int, 3_000_000_000, SCALE as int);
        }
        let nx: i128 = exec_tdiv((px - self.center.x as i128) * (SCALE as i128), self.radius as i128);
        let ny: i128 = exec_tdiv((py - self.center.y as i128) * (SCALE as i128), self.radius as i128);
        let nz: i128 = exec_tdiv((pz - self.center.z as i128) * (SCALE as i128), self.radius as i128);
        if !(-(2 * SCALE as i128) <= nx && nx <= 2 * SCALE as i128 && -(2 * SCALE as i128) <= ny
            && ny <= 2 * SCALE as i128 && -(2 * SCALE as i128) <= nz && nz <= 2 * SCALE as i128) {
            return None;
        }
        let p: Point3 = Vec3 { x: px as i64, y: py as i64, z: pz as i64 };
        let outward: Vec3 = Vec3 { x: nx as i64, y: ny as i64, z: nz as i64 };
        Some(HitRecord::new(ray, p, outward, t, self.material))
    }
}

/// Every sphere of the scene is well formed.
pub open spec fn coll_wf(objs: Seq<Sphere>) -> bool {
    forall|i: int| 0 <= i < objs.len() ==> sphere_wf(#[trigger] objs[i])
}

/// The closest hit over a sequence of spheres; on equal parameters the
/// earlier sphere wins, matching a first-minimum fold over the scene in
/// order.
pub open spec fn coll_hit_spec(objs: Seq<Sphere>, r: Ray, t_min: int, t_max: int) -> Option<
    HitRecord,
>
    decreases objs.len(),
{
    if objs.len() == 0 {
        None
    } else {
        let prev = coll_hit_spec(objs.drop_last(), r, t_min, t_max);
        let cur = sphere_hit_spec(objs.last(), r, t_min, t_max);
        match cur {
            None => prev,
            Some(c) => match prev {
                None => Some(c),
                Some(pv) => if c.t < pv.t {
                    Some(c)
                } else {
                    Some(pv)
                },
            },
        }
    }
}

/// The scene: an ordered list of spheres, tested linearly.
pub struct HittableCollection {
    pub objects: Vec<Sphere>,
}

/// Either a single sphere or the whole scene collection.
pub enum Hittable {
    Sphere(Sphere),
    Collection(HittableCollection),
}

impl HittableCollection {
    pub fn new() -> (r: HittableCollection)
        ensures
            r.objects@.len() == 0,
    {
        HittableCollection { objects: Vec::new() }
    }

    pub fn add(&mut self, sphere: Sphere)
        ensures
            final(self).objects@ == old(self).objects@.push(sphere),
    {
        self.objects.push(sphere);
    }

    /// The intersection with the globally smallest parameter, scanning every
    /// member over the same range.
    pub fn hit(&self, ray: &Ray, t_min: i64, t_max: i64) -> (res: Option<HitRecord>)
        requires
            coll_wf(self.objects@),
            ray_wf(*ray),
        ensures
            res == coll_hit_spec(self.objects@, *ray, t_min as int, t_max as int),
            res is None ==> forall|i: int|
                0 <= i < self.objects@.len() ==> #[trigger] sphere_hit_spec(
                    self.objects@[i],
                    *ray,
                    t_min as int,
                    t_max as int,
                ) is None,
            res matches Some(rec) ==> exists|i: int|
                0 <= i < self.objects@.len() && #[trigger] sphere_hit_spec(
                    self.objects@[i],
                    *ray,
                    t_min as int,
                    t_max as int,
                ) == Some(rec),
            res matches Some(rec) ==> forall|i: int|
                0 <= i < self.objects@.len() && #[trigger] sphere_hit_spec(
                    self.objects@[i],
                    *ray,
                    t_min as int,
                    t_max as int,
                ) is Some ==> rec.t <= sphere_hit_spec(
                    self.objects@[i],
                    *ray,
                    t_min as int,
                    t_max as int,
                )->Some_0.t,
            res matches Some(rec) ==> (t_min <= rec.t <= t_max && bounded(rec.p, MAX_PT as int)
                && bounded(rec.normal, 2 * SCALE) && material_wf(rec.material)),
    {
        let ghost gmin: int = t_min as int;
        let ghost gmax: int = t_max as int;
        let mut best: Option<HitRecord> = None;
        let mut i: usize = 0;
        proof {
            assert(self.objects@.take(0int) =~= Seq::<Sphere>::empty());
        }
        while i < self.objects.len()
            invariant
                0 <= i <= self.objects@.len(),
                coll_wf(self.objects@),
                ray_wf(*ray),
                best == coll_hit_spec(self.objects@.take(i as int), *ray, gmin, gmax),
                gmin == t_min as int,
                gmax == t_max as int,
                best matches Some(b) ==> (t_min <= b.t <= t_max && bounded(b.p, MAX_PT as int)
                    && bounded(b.normal, 2 * SCALE) && material_wf(b.material)),
            decreases self.objects@.len() - i,
        {
            let h: Option<HitRecord> = self.objects[i].hit(ray, t_min, t_max);
            let replace: bool = match (&h, &best) {
                (Some(hr), Some(br)) => hr.t < br.t,
                (Some(_), None) => true,
                (None, _) => false,
            };
            proof {
                assert(self.objects@.take(i + 1int).drop_last() =~= self.objects@.take(i as int));
                assert(self.objects@.take(i + 1int).last() == self.objects@[i as int]);
            }
            if replace {
                best = h;
            }
            i = i + 1;
        }
        proof {
            assert(self.objects@.take(self.objects@.len() as int) =~= self.objects@);
            lemma_coll_hit_min(self.objects@, *ray, gmin, gmax);
        }
        best
    }
}

impl Hittable {
    /// Dispatch on the hittable kind.
    pub fn hit(&self, ray: &Ray, t_min: i64, t_max: i64) -> (res: Option<HitRecord>)
        requires
            (self matches Hittable::Sphere(s) ==> sphere_wf(*s)),
            (self matches Hittable::Collection(c) ==> coll_wf(c.objects@)),
            ray_wf(*ray),
        ensures
            self matches Hittable::Sphere(s) ==> res == sphere_hit_spec(
                *s,
                *ray,
                t_min as int,
                t_max as int,
            ),
            self matches Hittable::Collection(c) ==> res == coll_hit_spec(
                c.objects@,
                *ray,
                t_min as int,
                t_max as int,
            ),
    {
        match self {
            Hittable::Sphere(s) => s.hit(ray, t_min, t_max),
            Hittable::Collection(c) => c.hit(ray, t_min, t_max),
        }
    }
}

/// Law: the collection returns the member hit with the smallest parameter.
/// If it reports no hit, no member hits; if it reports one, the record is
/// some member's hit and no member hits at a smaller parameter.
pub proof fn lemma_coll_hit_min(objs: Seq<Sphere>, r: Ray, t_min: int, t_max: int)
    ensures
        coll_hit_spec(objs, r, t_min, t_max) is None ==> forall|i: int|
            0 <= i < objs.len() ==> #[trigger] sphere_hit_spec(objs[i], r, t_min, t_max) is None,
        coll_hit_spec(objs, r, t_min, t_max) matches Some(rec) ==> exists|i: int|
            0 <= i < objs.len() && #[trigger] sphere_hit_spec(objs[i], r, t_min, t_max) == Some(
                rec,
            ),
        coll_hit_spec(objs, r, t_min, t_max) matches Some(rec) ==> forall|i: int|
            0 <= i < objs.len() && #[trigger] sphere_hit_spec(objs[i], r, t_min, t_max) is Some
                ==> rec.t <= sphere_hit_spec(objs[i], r, t_min, t_max)->Some_0.t,
    decreases objs.len(),
{
    if objs.len() > 0 {
        lemma_coll_hit_min(objs.drop_last(), r, t_min, t_max);
        assert forall|i: int| 0 <= i < objs.len() - 1 implies #[trigger] sphere_hit_spec(
            objs[i],
            r,
            t_min,
            t_max,
        ) == sphere_hit_spec(objs.drop_last()[i], r, t_min, t_max) by {
            assert(objs.drop_last()[i] == objs[i]);
        }
        assert(objs.last() == objs[objs.len() - 1]);
    }
}

} // verus!
