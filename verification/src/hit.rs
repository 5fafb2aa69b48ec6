use vstd::prelude::*;
use crate::fixed::{
    Fx, fx_mul, fx_div, fx_sqrt, fits64, mag, lemma_fx_mul_bound, lemma_fx_div_bound,
    lemma_fx_sq_nonneg, lemma_isqrt_le, lemma_isqrt_props,
};
use crate::vec3::{Vec3, Point3, dot3, dot_fits, vec_in_range};
use crate::ray::{Ray, ray_at, ray_wf};

verus! {

/// The result of a successful intersection: point, oriented unit normal,
/// ray parameter, and which side of the surface the ray struck.
#[derive(Clone, Copy, PartialEq, Eq, Structural, Debug)]
pub struct HitRecord {
    pub p: Point3,
    pub normal: Vec3,
    pub t: Fx,
    pub front_face: bool,
}

impl HitRecord {
    /// Derives `front_face` and the against-the-ray `normal` together, so
    /// that the two are always consistent.
    pub fn set_face_normal(&mut self, ray: &Ray, outward_normal: &Vec3)
        requires
            dot_fits(ray.dir, *outward_normal),
            fits64(-outward_normal.x@),
            fits64(-outward_normal.y@),
            fits64(-outward_normal.z@),
        ensures
            final(self).front_face == (dot3(ray.dir, *outward_normal) < 0),
            final(self).normal == (if dot3(ray.dir, *outward_normal) < 0 {
                *outward_normal
            } else {
                Vec3 {
                    x: Fx { bits: (-outward_normal.x@) as i64 },
                    y: Fx { bits: (-outward_normal.y@) as i64 },
                    z: Fx { bits: (-outward_normal.z@) as i64 },
                }
            }),
            final(self).p == old(self).p,
            final(self).t == old(self).t,
    {
        self.front_face = ray.dir.dot(*outward_normal).is_neg();
        self.normal = if self.front_face {
            *outward_normal
        } else {
            outward_normal.neg()
        };
    }
}

/// A sphere, the one concrete primitive.
#[derive(Clone, Copy, PartialEq, Eq, Structural, Debug)]
pub struct Sphere {
    pub center: Point3,
    pub radius: Fx,
}

impl Sphere {
    /// Geometry the fixed-point grid can carry through the intersection
    /// arithmetic without overflowing a scalar: a center on the coordinate
    /// grid and a positive radius, neither degenerate nor out of range.
    pub open spec fn wf(self) -> bool {
        &&& vec_in_range(self.center)
        &&& 32768 <= self.radius@ <= 67108864
    }

    pub fn new(center: Point3, radius: Fx) -> (s: Sphere)
        requires
            vec_in_range(center),
            32768 <= radius@ <= 67108864,
        ensures
            s.center == center,
            s.radius == radius,
            s.wf(),
    {
        Sphere { center, radius }
    }
}

/// `orig - center`, the vector from the sphere's center to the ray origin.
pub open spec fn oc_of(s: Sphere, r: Ray) -> Vec3 {
    Vec3 {
        x: Fx { bits: (r.orig.x@ - s.center.x@) as i64 },
        y: Fx { bits: (r.orig.y@ - s.center.y@) as i64 },
        z: Fx { bits: (r.orig.z@ - s.center.z@) as i64 },
    }
}

/// Quadratic coefficient `a = dot(dir, dir)`.
pub open spec fn a_of(r: Ray) -> int {
    dot3(r.dir, r.dir)
}

/// Half the linear coefficient, `dot(oc, dir)`.
pub open spec fn half_b_of(s: Sphere, r: Ray) -> int {
    dot3(oc_of(s, r), r.dir)
}

/// Constant coefficient `c = dot(oc, oc) - radius * radius`.
pub open spec fn c_of(s: Sphere, r: Ray) -> int {
    dot3(oc_of(s, r), oc_of(s, r)) - fx_mul(s.radius@, s.radius@)
}

/// Quarter discriminant `half_b * half_b - a * c`; negative means the ray
/// misses the sphere.
pub open spec fn disc_of(s: Sphere, r: Ray) -> int {
    fx_mul(half_b_of(s, r), half_b_of(s, r)) - fx_mul(a_of(r), c_of(s, r))
}

pub open spec fn sqrtd_of(s: Sphere, r: Ray) -> int {
    fx_sqrt(disc_of(s, r))
}

/// Near root of the quadratic, `(-half_b - sqrtd) / a`.
pub open spec fn root1_of(s: Sphere, r: Ray) -> int {
    fx_div(-half_b_of(s, r) - sqrtd_of(s, r), a_of(r))
}

/// Far root of the quadratic, `(-half_b + sqrtd) / a`.
pub open spec fn root2_of(s: Sphere, r: Ray) -> int {
    fx_div(-half_b_of(s, r) + sqrtd_of(s, r), a_of(r))
}

/// The interval convention: open below to exclude self-intersection at the
/// origin, closed above so a root at the current closest distance counts.
pub open spec fn accepted(root: int, t_min: int, t_max: int) -> bool {
    t_min < root <= t_max
}

/// Whether the sphere reports an intersection inside `(t_min, t_max]`.
pub open spec fn sphere_hit_some(s: Sphere, r: Ray, t_min: int, t_max: int) -> bool {
    &&& disc_of(s, r) >= 0
    &&& (accepted(root1_of(s, r), t_min, t_max) || accepted(root2_of(s, r), t_min, t_max))
}

/// The smallest qualifying root: the near root if it qualifies, else the far
/// root.
pub open spec fn hit_t_of(s: Sphere, r: Ray, t_min: int, t_max: int) -> int {
    if accepted(root1_of(s, r), t_min, t_max) {
        root1_of(s, r)
    } else {
        root2_of(s, r)
    }
}

/// World-space intersection point, the ray evaluated at the chosen root.
pub open spec fn point_of(s: Sphere, r: Ray, t_min: int, t_max: int) -> Vec3 {
    Vec3 {
        x: Fx { bits: ray_at(r, hit_t_of(s, r, t_min, t_max), 0) as i64 },
        y: Fx { bits: ray_at(r, hit_t_of(s, r, t_min, t_max), 1) as i64 },
        z: Fx { bits: ray_at(r, hit_t_of(s, r, t_min, t_max), 2) as i64 },
    }
}

/// Outward surface normal `(point - center) / radius`, before orientation.
pub open spec fn outward_of(s: Sphere, r: Ray, t_min: int, t_max: int) -> Vec3 {
    let p = point_of(s, r, t_min, t_max);
    Vec3 {
        x: Fx { bits: fx_div(p.x@ - s.center.x@, s.radius@) as i64 },
        y: Fx { bits: fx_div(p.y@ - s.center.y@, s.radius@) as i64 },
        z: Fx { bits: fx_div(p.z@ - s.center.z@, s.radius@) as i64 },
    }
}

/// `dot(dir, outward_normal)`: negative exactly when the ray strikes the
/// outward-facing side.
pub open spec fn ffdot_of(s: Sphere, r: Ray, t_min: int, t_max: int) -> int {
    dot3(r.dir, outward_of(s, r, t_min, t_max))
}

/// The normal oriented against the incoming ray.
pub open spec fn normal_of(s: Sphere, r: Ray, t_min: int, t_max: int) -> Vec3 {
    let outward = outward_of(s, r, t_min, t_max);
    if ffdot_of(s, r, t_min, t_max) < 0 {
        outward
    } else {
        Vec3 {
            x: Fx { bits: (-outward.x@) as i64 },
            y: Fx { bits: (-outward.y@) as i64 },
            z: Fx { bits: (-outward.z@) as i64 },
        }
    }
}

/// The full contract of the sphere intersection: the record for the nearest
/// qualifying root of the quadratic inside `(t_min, t_max]`, or nothing.
pub open spec fn sphere_hit_spec(s: Sphere, r: Ray, t_min: int, t_max: int) -> Option<HitRecord> {
    if sphere_hit_some(s, r, t_min, t_max) {
        Option::Some(HitRecord {
            p: point_of(s, r, t_min, t_max),
            normal: normal_of(s, r, t_min, t_max),
            t: Fx { bits: hit_t_of(s, r, t_min, t_max) as i64 },
            front_face: ffdot_of(s, r, t_min, t_max) < 0,
        })
    } else {
        Option::None
    }
}

/// Every intermediate of the intersection arithmetic stays inside the scalar
/// width when the sphere and the ray are well-formed.
pub proof fn lemma_sphere_bounds(s: Sphere, r: Ray, t_min: int, t_max: int)
    requires
        s.wf(),
        ray_wf(r),
    ensures
        dot_fits(r.dir, r.dir),
        mag(a_of(r)) <= 206158430208,
        dot_fits(oc_of(s, r), r.dir),
        mag(half_b_of(s, r)) <= 412316860416,
        dot_fits(oc_of(s, r), oc_of(s, r)),
        fits64(fx_mul(s.radius@, s.radius@)),
        0 <= fx_mul(s.radius@, s.radius@),
        mag(c_of(s, r)) <= 893353197568,
        fits64(fx_mul(half_b_of(s, r), half_b_of(s, r))),
        fits64(fx_mul(a_of(r), c_of(s, r))),
        mag(disc_of(s, r)) <= 5404319552844595200,
        disc_of(s, r) >= 0 ==> 0 <= sqrtd_of(s, r) <= 618475290624,
        disc_of(s, r) >= 0 ==> mag(root1_of(s, r)) <= 1030792151040,
        disc_of(s, r) >= 0 ==> mag(root2_of(s, r)) <= 1030792151040,
        disc_of(s, r) >= 0 ==> mag(hit_t_of(s, r, t_min, t_max)) <= 1030792151040,
        disc_of(s, r) >= 0 ==> fits64(fx_mul(hit_t_of(s, r, t_min, t_max), r.dir.x@)),
        disc_of(s, r) >= 0 ==> fits64(fx_mul(hit_t_of(s, r, t_min, t_max), r.dir.y@)),
        disc_of(s, r) >= 0 ==> fits64(fx_mul(hit_t_of(s, r, t_min, t_max), r.dir.z@)),
        disc_of(s, r) >= 0 ==> mag(ray_at(r, hit_t_of(s, r, t_min, t_max), 0))
            <= 1055531229773824,
        disc_of(s, r) >= 0 ==> mag(ray_at(r, hit_t_of(s, r, t_min, t_max), 1))
            <= 1055531229773824,
        disc_of(s, r) >= 0 ==> mag(ray_at(r, hit_t_of(s, r, t_min, t_max), 2))
            <= 1055531229773824,
        disc_of(s, r) >= 0 ==> fits64(
            fx_div(point_of(s, r, t_min, t_max).x@ - s.center.x@, s.radius@)),
        disc_of(s, r) >= 0 ==> fits64(
            fx_div(point_of(s, r, t_min, t_max).y@ - s.center.y@, s.radius@)),
        disc_of(s, r) >= 0 ==> fits64(
            fx_div(point_of(s, r, t_min, t_max).z@ - s.center.z@, s.radius@)),
        disc_of(s, r) >= 0 ==> mag(outward_of(s, r, t_min, t_max).x@) <= 2111062593765376,
        disc_of(s, r) >= 0 ==> mag(outward_of(s, r, t_min, t_max).y@) <= 2111062593765376,
        disc_of(s, r) >= 0 ==> mag(outward_of(s, r, t_min, t_max).z@) <= 2111062593765376,
        disc_of(s, r) >= 0 ==> dot_fits(r.dir, outward_of(s, r, t_min, t_max)),
{
    let oc = oc_of(s, r);
    assert(mag(oc.x@) <= 134217728 && mag(oc.y@) <= 134217728 && mag(oc.z@) <= 134217728);
    lemma_fx_mul_bound(r.dir.x@, r.dir.x@, 67108864, 67108864);
    lemma_fx_mul_bound(r.dir.y@, r.dir.y@, 67108864, 67108864);
    lemma_fx_mul_bound(r.dir.z@, r.dir.z@, 67108864, 67108864);
    lemma_fx_mul_bound(oc.x@, r.dir.x@, 134217728, 67108864);
    lemma_fx_mul_bound(oc.y@, r.dir.y@, 134217728, 67108864);
    lemma_fx_mul_bound(oc.z@, r.dir.z@, 134217728, 67108864);
    lemma_fx_mul_bound(oc.x@, oc.x@, 134217728, 134217728);
    lemma_fx_mul_bound(oc.y@, oc.y@, 134217728, 134217728);
    lemma_fx_mul_bound(oc.z@, oc.z@, 134217728, 134217728);
    lemma_fx_mul_bound(s.radius@, s.radius@, 67108864, 67108864);
    lemma_fx_sq_nonneg(s.radius@);
    lemma_fx_mul_bound(half_b_of(s, r), half_b_of(s, r), 412316860416, 412316860416);
    lemma_fx_mul_bound(a_of(r), c_of(s, r), 206158430208, 893353197568);
    if disc_of(s, r) >= 0 {
        lemma_isqrt_props(disc_of(s, r) * 65536);
        lemma_isqrt_le(disc_of(s, r) * 65536, 618475290624);
        lemma_fx_div_bound(-half_b_of(s, r) - sqrtd_of(s, r), a_of(r), 1030792151040, 65536);
        lemma_fx_div_bound(-half_b_of(s, r) + sqrtd_of(s, r), a_of(r), 1030792151040, 65536);
        let t = hit_t_of(s, r, t_min, t_max);
        lemma_fx_mul_bound(t, r.dir.x@, 1030792151040, 67108864);
        lemma_fx_mul_bound(t, r.dir.y@, 1030792151040, 67108864);
        lemma_fx_mul_bound(t, r.dir.z@, 1030792151040, 67108864);
        let p = point_of(s, r, t_min, t_max);
        assert(mag(p.x@ - s.center.x@) <= 1055531296882688);
        assert(mag(p.y@ - s.center.y@) <= 1055531296882688);
        assert(mag(p.z@ - s.center.z@) <= 1055531296882688);
        lemma_fx_div_bound(p.x@ - s.center.x@, s.radius@, 1055531296882688, 32768);
        lemma_fx_div_bound(p.y@ - s.center.y@, s.radius@, 1055531296882688, 32768);
        lemma_fx_div_bound(p.z@ - s.center.z@, s.radius@, 1055531296882688, 32768);
        let out = outward_of(s, r, t_min, t_max);
        lemma_fx_mul_bound(r.dir.x@, out.x@, 67108864, 2111062593765376);
        lemma_fx_mul_bound(r.dir.y@, out.y@, 67108864, 2111062593765376);
        lemma_fx_mul_bound(r.dir.z@, out.z@, 67108864, 2111062593765376);
    }
}

impl Sphere {
    /// Closed-form ray-sphere intersection: the record for the nearest root
    /// of the quadratic inside `(t_min, t_max]`, or nothing.
    pub fn hit(&self, r: &Ray, t_min: Fx, t_max: Fx) -> (res: Option<HitRecord>)
        requires
            self.wf(),
            ray_wf(*r),
        ensures
            res == sphere_hit_spec(*self, *r, t_min@, t_max@),
    {
        proof {
            lemma_sphere_bounds(*self, *r, t_min@, t_max@);
        }
        let oc = r.orig.sub(self.center);
        assert(oc == oc_of(*self, *r));
        let a = r.dir.dot(r.dir);
        let half_b = oc.dot(r.dir);
        let c = oc.dot(oc).sub(self.radius.mul(self.radius));
        assert(c@ == c_of(*self, *r));

        let discriminant = half_b.mul(half_b).sub(a.mul(c));
        assert(discriminant@ == disc_of(*self, *r));
        if discriminant.is_neg() {
            return Option::None;
        }

        let sqrtd = discriminant.sqrt();
        assert(sqrtd@ == sqrtd_of(*self, *r));

        let mut root = half_b.neg().sub(sqrtd).div(a);
        assert(root@ == root1_of(*self, *r));
        let mut ok = t_min.lt(root) && root.le(t_max);
        if !ok {
            root = half_b.neg().add(sqrtd).div(a);
            assert(root@ == root2_of(*self, *r));
            ok = t_min.lt(root) && root.le(t_max);
        }
        if !ok {
            return Option::None;
        }
        assert(root@ == hit_t_of(*self, *r, t_min@, t_max@));

        let p = r.at(root);
        assert(p == point_of(*self, *r, t_min@, t_max@));
        let outward_normal = p.sub(self.center).div_by(self.radius);
        assert(outward_normal == outward_of(*self, *r, t_min@, t_max@));
        let mut rec = HitRecord { t: root, p, front_face: false, normal: outward_normal };
        rec.set_face_normal(r, &outward_normal);
        assert(rec.normal == normal_of(*self, *r, t_min@, t_max@));
        Option::Some(rec)
    }
}

/// Standalone first-pass intersection probe: the near root of the quadratic
/// for a sphere, whatever interval it lies in, or minus one for a miss.
pub fn hit_sphere(center: Point3, radius: Fx, ray: &Ray) -> (t: Fx)
    requires
        vec_in_range(center),
        32768 <= radius@ <= 67108864,
        ray_wf(*ray),
    ensures
        t@ == (if disc_of((Sphere { center, radius }), *ray) < 0 {
            -65536
        } else {
            root1_of((Sphere { center, radius }), *ray)
        }),
{
    let ghost s = Sphere { center, radius };
    proof {
        lemma_sphere_bounds(s, *ray, 0, 0);
    }
    let oc = ray.orig.sub(center);
    assert(oc == oc_of(s, *ray));
    let a = ray.dir.dot(ray.dir);
    let half_b = oc.dot(ray.dir);
    let c = oc.dot(oc).sub(radius.mul(radius));
    let discriminant = half_b.mul(half_b).sub(a.mul(c));
    if discriminant.is_neg() {
        Fx::from_bits(-65536)
    } else {
        half_b.neg().sub(discriminant.sqrt()).div(a)
    }
}

/// An ordered collection of primitives, itself answering intersection
/// queries with the globally nearest hit.
pub struct HittableList {
    pub objects: Vec<Sphere>,
}

/// Nearest-hit aggregation over the primitives still to visit: query each in
/// order against `(t_min, closest]`, shrinking `closest` to every accepted
/// hit, and keep the last record taken.
pub open spec fn scene_hit_seq(
    objs: Seq<Sphere>,
    r: Ray,
    t_min: int,
    closest: int,
    best: Option<HitRecord>,
) -> Option<HitRecord>
    decreases objs.len(),
{
    if objs.len() == 0 {
        best
    } else {
        match sphere_hit_spec(objs[0], r, t_min, closest) {
            Option::Some(rec) => scene_hit_seq(objs.drop_first(), r, t_min, rec.t@,
                Option::Some(rec)),
            Option::None => scene_hit_seq(objs.drop_first(), r, t_min, closest, best),
        }
    }
}

/// The contract of the scene query: the nearest intersection among all
/// primitives inside `(t_min, t_max]`, or nothing.
pub open spec fn scene_hit_spec(objs: Seq<Sphere>, r: Ray, t_min: int, t_max: int) -> Option<
    HitRecord,
> {
    scene_hit_seq(objs, r, t_min, t_max, Option::None)
}

/// A record whose normal stays inside the window the shading arithmetic can
/// take.
pub open spec fn rec_bounded(rec: HitRecord) -> bool {
    &&& mag(rec.normal.x@) <= 2111062593765376
    &&& mag(rec.normal.y@) <= 2111062593765376
    &&& mag(rec.normal.z@) <= 2111062593765376
}

/// Every record a well-formed scene reports has a bounded normal.
pub proof fn lemma_scene_rec_bounded(
    objs: Seq<Sphere>,
    r: Ray,
    t_min: int,
    closest: int,
    best: Option<HitRecord>,
)
    requires
        ray_wf(r),
        forall|i: int| 0 <= i < objs.len() ==> (#[trigger] objs[i]).wf(),
        best is Some ==> rec_bounded(best.unwrap()),
    ensures
        scene_hit_seq(objs, r, t_min, closest, best) is Some ==> rec_bounded(
            scene_hit_seq(objs, r, t_min, closest, best).unwrap()),
    decreases objs.len(),
{
    if objs.len() > 0 {
        lemma_sphere_bounds(objs[0], r, t_min, closest);
        assert(forall|i: int| 0 <= i < objs.drop_first().len() ==> (
        #[trigger] objs.drop_first()[i]).wf());
        match sphere_hit_spec(objs[0], r, t_min, closest) {
            Option::Some(rec) => {
                lemma_scene_rec_bounded(objs.drop_first(), r, t_min, rec.t@,
                    Option::Some(rec));
            },
            Option::None => {
                lemma_scene_rec_bounded(objs.drop_first(), r, t_min, closest, best);
            },
        }
    }
}

impl HittableList {
    pub fn new() -> (l: HittableList)
        ensures
            l.objects@ =~= Seq::<Sphere>::empty(),
    {
        let list: Vec<Sphere> = Vec::new();
        HittableList { objects: list }
    }

    pub fn add(&mut self, object: Sphere)
        ensures
            final(self).objects@ =~= old(self).objects@.push(object),
    {
        self.objects.push(object);
    }

    /// Queries every primitive in insertion order, shrinking the upper bound
    /// of the interval to the closest hit seen so far; the shrinking bound is
    /// what makes the result the globally nearest intersection.
    pub fn hit(&self, r: &Ray, t_min: Fx, t_max: Fx) -> (res: Option<HitRecord>)
        requires
            ray_wf(*r),
            forall|i: int| 0 <= i < self.objects@.len() ==> (#[trigger] self.objects@[i]).wf(),
        ensures
            res == scene_hit_spec(self.objects@, *r, t_min@, t_max@),
    {
        let mut closest_so_far = t_max;
        let mut last_hit: Option<HitRecord> = Option::None;
        let n = self.objects.len();
        let mut idx: usize = 0;
        proof {
            assert(self.objects@.skip(0) =~= self.objects@);
        }
        while idx < n
            invariant
                idx <= n,
                n == self.objects@.len(),
                ray_wf(*r),
                forall|i: int| 0 <= i < self.objects@.len() ==> (
                #[trigger] self.objects@[i]).wf(),
                scene_hit_seq(self.objects@.skip(idx as int), *r, t_min@, closest_so_far@,
                    last_hit) == scene_hit_spec(self.objects@, *r, t_min@, t_max@),
            decreases n - idx,
        {
            let object = &self.objects[idx];
            proof {
                assert(self.objects@.skip(idx as int)[0] == self.objects@[idx as int]);
                assert(self.objects@.skip(idx as int).drop_first() =~= self.objects@.skip(
                    idx as int + 1));
            }
            match object.hit(r, t_min, closest_so_far) {
                Option::None => {},
                Option::Some(rec) => {
                    closest_so_far = rec.t;
                    last_hit = Option::Some(rec);
                },
            }
            idx = idx + 1;
        }
        last_hit
    }
}

} // verus!
