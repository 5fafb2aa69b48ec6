use vstd::prelude::*;
use crate::fixed::{Fx, fx_mul, fx_div, fx_sqrt, fits64, mag, lemma_fx_div_bound, lemma_isqrt_ge};

verus! {

/// A 3-component vector of fixed-point scalars, used both for points and
/// for directions.
#[derive(Clone, Copy, PartialEq, Eq, Structural, Debug)]
pub struct Vec3 {
    pub x: Fx,
    pub y: Fx,
    pub z: Fx,
}

pub type Point3 = Vec3;

pub type Color = Vec3;

/// Dot product by bit pattern: the sum of the three componentwise
/// fixed-point products.
pub open spec fn dot3(u: Vec3, v: Vec3) -> int {
    fx_mul(u.x@, v.x@) + fx_mul(u.y@, v.y@) + fx_mul(u.z@, v.z@)
}

/// The window of the fixed-point grid inside which a world coordinate may
/// lie: the intersection arithmetic on such coordinates never overflows a
/// scalar.
pub open spec fn coord_in_range(b: int) -> bool {
    -67108864 <= b <= 67108864
}

pub open spec fn vec_in_range(v: Vec3) -> bool {
    &&& coord_in_range(v.x@)
    &&& coord_in_range(v.y@)
    &&& coord_in_range(v.z@)
}

/// Whether every intermediate of the dot product fits the scalar width.
pub open spec fn dot_fits(u: Vec3, v: Vec3) -> bool {
    &&& fits64(fx_mul(u.x@, v.x@))
    &&& fits64(fx_mul(u.y@, v.y@))
    &&& fits64(fx_mul(u.z@, v.z@))
    &&& fits64(fx_mul(u.x@, v.x@) + fx_mul(u.y@, v.y@))
    &&& fits64(dot3(u, v))
}

impl Vec3 {
    pub fn new(x: Fx, y: Fx, z: Fx) -> (r: Vec3)
        ensures
            r.x == x,
            r.y == y,
            r.z == z,
    {
        Vec3 { x, y, z }
    }

    pub fn add(self, o: Vec3) -> (r: Vec3)
        requires
            fits64(self.x@ + o.x@),
            fits64(self.y@ + o.y@),
            fits64(self.z@ + o.z@),
        ensures
            r.x@ == self.x@ + o.x@,
            r.y@ == self.y@ + o.y@,
            r.z@ == self.z@ + o.z@,
    {
        Vec3 { x: self.x.add(o.x), y: self.y.add(o.y), z: self.z.add(o.z) }
    }

    pub fn sub(self, o: Vec3) -> (r: Vec3)
        requires
            fits64(self.x@ - o.x@),
            fits64(self.y@ - o.y@),
            fits64(self.z@ - o.z@),
        ensures
            r.x@ == self.x@ - o.x@,
            r.y@ == self.y@ - o.y@,
            r.z@ == self.z@ - o.z@,
    {
        Vec3 { x: self.x.sub(o.x), y: self.y.sub(o.y), z: self.z.sub(o.z) }
    }

    pub fn neg(self) -> (r: Vec3)
        requires
            fits64(-self.x@),
            fits64(-self.y@),
            fits64(-self.z@),
        ensures
            r.x@ == -self.x@,
            r.y@ == -self.y@,
            r.z@ == -self.z@,
    {
        Vec3 { x: self.x.neg(), y: self.y.neg(), z: self.z.neg() }
    }

    /// Componentwise product with a scalar.
    pub fn scale(self, t: Fx) -> (r: Vec3)
        requires
            fits64(fx_mul(t@, self.x@)),
            fits64(fx_mul(t@, self.y@)),
            fits64(fx_mul(t@, self.z@)),
        ensures
            r.x@ == fx_mul(t@, self.x@),
            r.y@ == fx_mul(t@, self.y@),
            r.z@ == fx_mul(t@, self.z@),
    {
        Vec3 { x: t.mul(self.x), y: t.mul(self.y), z: t.mul(self.z) }
    }

    /// Componentwise product of two vectors, as colors multiply.
    pub fn mul_comp(self, o: Vec3) -> (r: Vec3)
        requires
            fits64(fx_mul(self.x@, o.x@)),
            fits64(fx_mul(self.y@, o.y@)),
            fits64(fx_mul(self.z@, o.z@)),
        ensures
            r.x@ == fx_mul(self.x@, o.x@),
            r.y@ == fx_mul(self.y@, o.y@),
            r.z@ == fx_mul(self.z@, o.z@),
    {
        Vec3 { x: self.x.mul(o.x), y: self.y.mul(o.y), z: self.z.mul(o.z) }
    }

    /// Componentwise division by a scalar.
    pub fn div_by(self, d: Fx) -> (r: Vec3)
        requires
            d@ != 0,
            fits64(fx_div(self.x@, d@)),
            fits64(fx_div(self.y@, d@)),
            fits64(fx_div(self.z@, d@)),
        ensures
            r.x@ == fx_div(self.x@, d@),
            r.y@ == fx_div(self.y@, d@),
            r.z@ == fx_div(self.z@, d@),
    {
        Vec3 { x: self.x.div(d), y: self.y.div(d), z: self.z.div(d) }
    }

    pub fn dot(self, o: Vec3) -> (r: Fx)
        requires
            dot_fits(self, o),
        ensures
            r@ == dot3(self, o),
    {
        self.x.mul(o.x).add(self.y.mul(o.y)).add(self.z.mul(o.z))
    }

    pub fn length_squared(self) -> (r: Fx)
        requires
            dot_fits(self, self),
        ensures
            r@ == dot3(self, self),
    {
        self.dot(self)
    }

    pub fn length(self) -> (r: Fx)
        requires
            dot_fits(self, self),
            dot3(self, self) >= 0,
        ensures
            r@ == fx_sqrt(dot3(self, self)),
            r@ >= 0,
    {
        self.length_squared().sqrt()
    }

    /// The unit vector in this vector's direction, each component divided
    /// by the length on the fixed-point grid.
    pub fn normalize(self) -> (r: Vec3)
        requires
            dot_fits(self, self),
            dot3(self, self) >= 1,
            mag(self.x@) <= 0x200000000000,
            mag(self.y@) <= 0x200000000000,
            mag(self.z@) <= 0x200000000000,
        ensures
            r.x@ == fx_div(self.x@, fx_sqrt(dot3(self, self))),
            r.y@ == fx_div(self.y@, fx_sqrt(dot3(self, self))),
            r.z@ == fx_div(self.z@, fx_sqrt(dot3(self, self))),
    {
        let len = self.length();
        proof {
            lemma_isqrt_ge(dot3(self, self) * 65536, 1);
            lemma_fx_div_bound(self.x@, len@, 0x200000000000, 1);
            lemma_fx_div_bound(self.y@, len@, 0x200000000000, 1);
            lemma_fx_div_bound(self.z@, len@, 0x200000000000, 1);
        }
        Vec3 { x: self.x.div(len), y: self.y.div(len), z: self.z.div(len) }
    }
}

} // verus!
