use vstd::prelude::*;
use crate::fixed::{Fx, fx_mul, fits64};
use crate::vec3::{Vec3, dot3, vec_in_range};

verus! {

/// A ray the intersection arithmetic can take: origin and direction on the
/// coordinate grid, and a direction of at least unit magnitude, which rules
/// out the degenerate zero-length direction.
pub open spec fn ray_wf(r: Ray) -> bool {
    &&& vec_in_range(r.orig)
    &&& vec_in_range(r.dir)
    &&& dot3(r.dir, r.dir) >= 65536
}

/// A ray: origin plus a direction of significant (not necessarily unit)
/// magnitude, evaluated at a parameter `t` as `orig + t * dir`.
#[derive(Clone, Copy, PartialEq, Eq, Structural, Debug)]
pub struct Ray {
    pub orig: Vec3,
    pub dir: Vec3,
}

/// Spec-level evaluation of a ray at parameter `t`, one component's bit
/// pattern at a time.
pub open spec fn ray_at(r: Ray, t: int, c: int) -> int {
    if c == 0 {
        r.orig.x@ + fx_mul(t, r.dir.x@)
    } else if c == 1 {
        r.orig.y@ + fx_mul(t, r.dir.y@)
    } else {
        r.orig.z@ + fx_mul(t, r.dir.z@)
    }
}

impl Ray {
    pub fn new(point: &Vec3, dir: &Vec3) -> (r: Ray)
        ensures
            r.orig == *point,
            r.dir == *dir,
    {
        Ray { orig: *point, dir: *dir }
    }

    pub fn at(&self, t: Fx) -> (r: Vec3)
        requires
            fits64(fx_mul(t@, self.dir.x@)),
            fits64(fx_mul(t@, self.dir.y@)),
            fits64(fx_mul(t@, self.dir.z@)),
            fits64(ray_at(*self, t@, 0)),
            fits64(ray_at(*self, t@, 1)),
            fits64(ray_at(*self, t@, 2)),
        ensures
            r.x@ == ray_at(*self, t@, 0),
            r.y@ == ray_at(*self, t@, 1),
            r.z@ == ray_at(*self, t@, 2),
    {
        self.orig.add(self.dir.scale(t))
    }
}

} // verus!
