//! Rays: an origin point and an (not necessarily unit) direction.

use vstd::prelude::*;
use crate::vec3::{Vec3, Point3, bounded};
use crate::fixed::{fxmul, iabs};
use crate::fixed::fx_mul;

verus! {

/// Bound on ray origin components: hit points are clamped within it.
pub const MAX_PT: i64 = 2_000_000_000;

/// Bound on ray direction components.
pub const MAX_DIR: i64 = 1_000_000_000;

#[derive(Clone, Copy, Debug)]
pub struct Ray {
    pub origin: Point3,
    pub direction: Vec3,
}

/// Origin within `MAX_PT`, direction within `MAX_DIR`: the range on which
/// intersection arithmetic is proved free of overflow.
pub open spec fn ray_wf(r: Ray) -> bool {
    bounded(r.origin, MAX_PT as int) && bounded(r.direction, MAX_DIR as int)
}

/// One component of the point at parameter `t` along the ray.
pub open spec fn at_comp(origin_c: int, t: int, dir_c: int) -> int {
    origin_c + fxmul(t, dir_c)
}

impl Ray {
    pub fn new(origin: Point3, direction: Vec3) -> (r: Ray)
        ensures
            r.origin == origin,
            r.direction == direction,
    {
        Ray { origin, direction }
    }

    pub fn origin(&self) -> (r: Point3)
        ensures
            r == self.origin,
    {
        self.origin
    }

    pub fn direction(&self) -> (r: Vec3)
        ensures
            r == self.direction,
    {
        self.direction
    }

    /// The point `origin + t * direction`.
    pub fn at(&self, t: i64) -> (p: Point3)
        requires
            iabs(fxmul(t as int, self.direction.x as int)) <= i64::MAX,
            iabs(fxmul(t as int, self.direction.y as int)) <= i64::MAX,
            iabs(fxmul(t as int, self.direction.z as int)) <= i64::MAX,
            iabs(at_comp(self.origin.x as int, t as int, self.direction.x as int)) <= i64::MAX,
            iabs(at_comp(self.origin.y as int, t as int, self.direction.y as int)) <= i64::MAX,
            iabs(at_comp(self.origin.z as int, t as int, self.direction.z as int)) <= i64::MAX,
        ensures
            p.x == at_comp(self.origin.x as int, t as int, self.direction.x as int),
            p.y == at_comp(self.origin.y as int, t as int, self.direction.y as int),
            p.z == at_comp(self.origin.z as int, t as int, self.direction.z as int),
    {
        Vec3 {
            x: self.origin.x + fx_mul(t, self.direction.x),
            y: self.origin.y + fx_mul(t, self.direction.y),
            z: self.origin.z + fx_mul(t, self.direction.z),
        }
    }
}

} // verus!
