use vstd::prelude::*;
use crate::fixed::{
    Fx, mag, lemma_fx_mul_nonneg, lemma_isqrt_le, lemma_isqrt_props, lemma_tdiv_mono,
};
use crate::vec3::{Vec3, dot3};
use crate::ray::{Ray, ray_wf};
use crate::hit::{
    HitRecord, HittableList, Sphere, a_of, c_of, disc_of, half_b_of, hit_t_of, normal_of,
    outward_of, root1_of, root2_of, scene_hit_seq, scene_hit_spec, sphere_hit_spec, sqrtd_of,
    lemma_sphere_bounds,
};

verus! {

/// An accepted intersection lies inside the query interval: strictly above
/// `t_min`, at or below `t_max`.
pub proof fn lemma_hit_in_interval(s: Sphere, r: Ray, t_min: int, t_max: int)
    requires
        s.wf(),
        ray_wf(r),
        sphere_hit_spec(s, r, t_min, t_max) is Some,
    ensures
        sphere_hit_spec(s, r, t_min, t_max).unwrap().t@ == hit_t_of(s, r, t_min, t_max),
        t_min < sphere_hit_spec(s, r, t_min, t_max).unwrap().t@ <= t_max,
{
    lemma_sphere_bounds(s, r, t_min, t_max);
}

/// The near root never lies beyond the far root.
pub proof fn lemma_root_order(s: Sphere, r: Ray)
    requires
        ray_wf(r),
        disc_of(s, r) >= 0,
    ensures
        root1_of(s, r) <= root2_of(s, r),
{
    lemma_isqrt_props(disc_of(s, r) * 65536);
    lemma_tdiv_mono((-half_b_of(s, r) - sqrtd_of(s, r)) * 65536,
        (-half_b_of(s, r) + sqrtd_of(s, r)) * 65536, a_of(r));
}

/// Shrinking the upper bound of the interval below an accepted hit leaves no
/// intersection: a sphere whose nearest qualifying root has been cut off by a
/// tighter bound reports nothing.
pub proof fn lemma_shrink_none(s: Sphere, r: Ray, t_min: int, t_max: int, t_cut: int)
    requires
        s.wf(),
        ray_wf(r),
        sphere_hit_spec(s, r, t_min, t_max) is Some,
        t_cut < sphere_hit_spec(s, r, t_min, t_max).unwrap().t@,
        t_cut <= t_max,
    ensures
        sphere_hit_spec(s, r, t_min, t_cut) is None,
{
    lemma_hit_in_interval(s, r, t_min, t_max);
    lemma_root_order(s, r);
}

/// Shrinking the upper bound of the interval while keeping it at or above an
/// accepted hit returns the very same record.
pub proof fn lemma_shrink_keep(s: Sphere, r: Ray, t_min: int, t_max: int, t_cut: int)
    requires
        s.wf(),
        ray_wf(r),
        sphere_hit_spec(s, r, t_min, t_max) is Some,
        sphere_hit_spec(s, r, t_min, t_max).unwrap().t@ <= t_cut <= t_max,
    ensures
        sphere_hit_spec(s, r, t_min, t_cut) == sphere_hit_spec(s, r, t_min, t_max),
{
    lemma_hit_in_interval(s, r, t_min, t_max);
    lemma_root_order(s, r);
    assert(hit_t_of(s, r, t_min, t_cut) == hit_t_of(s, r, t_min, t_max));
}

/// A ray whose origin is outside a sphere and whose direction points away
/// from it intersects nothing, whatever the upper bound of the interval:
/// both roots of the quadratic lie at or below zero.
pub proof fn lemma_ray_points_away_misses(s: Sphere, r: Ray, t_min: int, t_max: int)
    requires
        s.wf(),
        ray_wf(r),
        c_of(s, r) > 0,
        half_b_of(s, r) > 0,
        t_min >= 0,
    ensures
        sphere_hit_spec(s, r, t_min, t_max) is None,
{
    if disc_of(s, r) >= 0 {
        let hb = half_b_of(s, r);
        let a = a_of(r);
        lemma_fx_mul_nonneg(a, c_of(s, r));
        let hb2 = crate::fixed::fx_mul(hb, hb);
        assert(hb * hb >= 0) by (nonlinear_arith);
        assert(hb2 == (hb * hb) / 65536);
        assert(hb2 * 65536 <= hb * hb) by (nonlinear_arith)
            requires
                hb2 == (hb * hb) / 65536,
                hb * hb >= 0,
        ;
        assert(disc_of(s, r) * 65536 <= hb * hb);
        lemma_isqrt_le(disc_of(s, r) * 65536, hb);
        let sd = sqrtd_of(s, r);
        lemma_isqrt_props(disc_of(s, r) * 65536);
        assert((-hb - sd) * 65536 <= 0 && (-hb + sd) * 65536 <= 0);
        lemma_tdiv_mono((-hb - sd) * 65536, 0, a);
        lemma_tdiv_mono((-hb + sd) * 65536, 0, a);
        assert(crate::fixed::tdiv(0, a) == 0) by {
            assert(mag(0) / mag(a) == 0) by (nonlinear_arith)
                requires
                    mag(0) == 0,
                    mag(a) >= 1,
            ;
        }
        assert(root1_of(s, r) <= 0 && root2_of(s, r) <= 0);
    }
}

/// A head-on hit lands exactly where geometry says: for a sphere of radius
/// `r` centered at the origin and a ray from `(0, 0, r + d)` in the unit
/// direction `(0, 0, -1)` with `d > 0`, the hit is at `t = d`, point
/// `(0, 0, r)`, normal `(0, 0, 1)`, striking the front face. Stated for
/// radii and distances on the quarter-grid (multiples of `1/256`), whose
/// squares the fixed-point scalars carry exactly.
pub proof fn lemma_head_on_hit(rb: int, db: int, t_max: int)
    requires
        32768 <= rb,
        256 <= db,
        rb + db <= 67108864,
        rb % 256 == 0,
        db % 256 == 0,
        db <= t_max,
    ensures
        sphere_hit_spec(
            (Sphere {
                center: Vec3 { x: Fx { bits: 0 }, y: Fx { bits: 0 }, z: Fx { bits: 0 } },
                radius: Fx { bits: rb as i64 },
            }),
            (Ray {
                orig: Vec3 { x: Fx { bits: 0 }, y: Fx { bits: 0 }, z: Fx {
                    bits: (rb + db) as i64 } },
                dir: Vec3 { x: Fx { bits: 0 }, y: Fx { bits: 0 }, z: Fx { bits: -65536i64 } },
            }),
            0,
            t_max,
        ) == Some(HitRecord {
            p: Vec3 { x: Fx { bits: 0 }, y: Fx { bits: 0 }, z: Fx { bits: rb as i64 } },
            normal: Vec3 { x: Fx { bits: 0 }, y: Fx { bits: 0 }, z: Fx { bits: 65536 } },
            t: Fx { bits: db as i64 },
            front_face: true,
        }),
{
    let s = Sphere {
        center: Vec3 { x: Fx { bits: 0 }, y: Fx { bits: 0 }, z: Fx { bits: 0 } },
        radius: Fx { bits: rb as i64 },
    };
    let r = Ray {
        orig: Vec3 { x: Fx { bits: 0 }, y: Fx { bits: 0 }, z: Fx { bits: (rb + db) as i64 } },
        dir: Vec3 { x: Fx { bits: 0 }, y: Fx { bits: 0 }, z: Fx { bits: -65536i64 } },
    };
    let u = (rb + db) / 256;
    let v = rb / 256;
    assert((rb + db) % 256 == 0);
    assert(rb + db == 256 * u && rb == 256 * v);
    assert(v >= 1 && u > v);

    // The quadratic's coefficients, exactly.
    assert(crate::fixed::fx_mul(0, 0) == 0);
    assert(crate::fixed::fx_mul(-65536, -65536) == 65536);
    assert(a_of(r) == 65536);
    assert(ray_wf(r));
    assert(s.wf());
    let oc = crate::hit::oc_of(s, r);
    assert(oc.x@ == 0 && oc.y@ == 0 && oc.z@ == rb + db);
    crate::fixed::lemma_fx_scale_identity(rb + db);
    assert(half_b_of(s, r) == -(rb + db));
    assert(crate::fixed::fx_mul(rb + db, rb + db) == u * u) by {
        assert((rb + db) * (rb + db) == (u * u) * 65536 && (u * u) >= 0 && ((u * u) * 65536)
            / 65536 == u * u) by (nonlinear_arith)
            requires
                rb + db == 256 * u,
        ;
    }
    assert(crate::fixed::fx_mul(rb, rb) == v * v) by {
        assert(rb * rb == (v * v) * 65536 && (v * v) >= 0 && ((v * v) * 65536) / 65536
            == v * v) by (nonlinear_arith)
            requires
                rb == 256 * v,
        ;
    }
    assert(u * u >= v * v && v * v >= 1) by (nonlinear_arith)
        requires
            u > v >= 1,
    ;
    assert(c_of(s, r) == u * u - v * v);
    crate::fixed::lemma_fx_scale_identity(u * u - v * v);
    assert(crate::fixed::fx_mul(65536, u * u - v * v) == u * u - v * v);
    assert(crate::fixed::fx_mul(-(rb + db), -(rb + db)) == u * u) by {
        assert((-(rb + db)) * (-(rb + db)) == (u * u) * 65536 && (u * u) >= 0 && ((u * u)
            * 65536) / 65536 == u * u) by (nonlinear_arith)
            requires
                rb + db == 256 * u,
        ;
    }
    assert(disc_of(s, r) == v * v);

    // The square root of the exact square is the radius itself.
    assert((v * v) * 65536 == rb * rb && rb * rb < (rb + 1) * (rb + 1)) by (nonlinear_arith)
        requires
            rb == 256 * v,
            rb >= 1,
    ;
    crate::fixed::lemma_isqrt_unique(rb * rb, rb);
    assert(sqrtd_of(s, r) == rb);

    // The near root is exactly the gap d.
    crate::fixed::lemma_fx_scale_identity(db);
    assert(-half_b_of(s, r) - sqrtd_of(s, r) == db);
    assert(root1_of(s, r) == db);
    assert(crate::hit::accepted(root1_of(s, r), 0, t_max));
    assert(hit_t_of(s, r, 0, t_max) == db);

    // Point, outward normal and orientation.
    assert(crate::fixed::fx_mul(db, 0) == 0);
    assert(crate::fixed::fx_mul(db, -65536) == -db);
    let p = crate::hit::point_of(s, r, 0, t_max);
    assert(p.x@ == 0 && p.y@ == 0 && p.z@ == rb);
    assert(crate::fixed::fx_div(0, rb) == 0) by {
        assert((0int) / crate::fixed::mag(rb) == 0) by (nonlinear_arith)
            requires
                crate::fixed::mag(rb) >= 1,
        ;
    }
    assert(crate::fixed::fx_div(rb, rb) == 65536) by {
        assert((rb * 65536) / rb == 65536) by (nonlinear_arith)
            requires
                rb >= 1,
        ;
    }
    let out = outward_of(s, r, 0, t_max);
    assert(out.x@ == 0 && out.y@ == 0 && out.z@ == 65536);
    assert(crate::fixed::fx_mul(-65536, 65536) == -65536);
    assert(crate::hit::ffdot_of(s, r, 0, t_max) == -65536);
    assert(normal_of(s, r, 0, t_max) == out);
}

/// Of two spheres both hit by a ray, the scene that holds them — in either
/// order — reports the nearer record, never the farther one.
pub proof fn lemma_nearest_of_two(
    s1: Sphere,
    s2: Sphere,
    r: Ray,
    t_min: int,
    t_max: int,
    rec1: HitRecord,
    rec2: HitRecord,
)
    requires
        s1.wf(),
        s2.wf(),
        ray_wf(r),
        sphere_hit_spec(s1, r, t_min, t_max) == Some(rec1),
        sphere_hit_spec(s2, r, t_min, t_max) == Some(rec2),
        rec1.t@ < rec2.t@,
    ensures
        scene_hit_spec(seq![s1, s2], r, t_min, t_max) == Some(rec1),
        scene_hit_spec(seq![s2, s1], r, t_min, t_max) == Some(rec1),
{
    lemma_hit_in_interval(s1, r, t_min, t_max);
    lemma_hit_in_interval(s2, r, t_min, t_max);
    let empty = Seq::<Sphere>::empty();

    let objs12 = seq![s1, s2];
    assert(objs12[0] == s1);
    assert(objs12.drop_first() =~= seq![s2]);
    assert(seq![s2].drop_first() =~= empty);
    lemma_shrink_none(s2, r, t_min, t_max, rec1.t@);
    assert(scene_hit_spec(objs12, r, t_min, t_max) == scene_hit_seq(seq![s2], r, t_min,
        rec1.t@, Some(rec1)));
    assert(scene_hit_seq(seq![s2], r, t_min, rec1.t@, Some(rec1)) == scene_hit_seq(empty, r,
        t_min, rec1.t@, Some(rec1)));
    assert(scene_hit_seq(empty, r, t_min, rec1.t@, Some(rec1)) == Some(rec1));

    let objs21 = seq![s2, s1];
    assert(objs21[0] == s2);
    assert(objs21.drop_first() =~= seq![s1]);
    assert(seq![s1].drop_first() =~= empty);
    lemma_shrink_keep(s1, r, t_min, t_max, rec2.t@);
    assert(sphere_hit_spec(s1, r, t_min, rec2.t@) == Some(rec1));
    assert(scene_hit_spec(objs21, r, t_min, t_max) == scene_hit_seq(seq![s1], r, t_min,
        rec2.t@, Some(rec2)));
    assert(scene_hit_seq(seq![s1], r, t_min, rec2.t@, Some(rec2)) == scene_hit_seq(empty, r,
        t_min, rec1.t@, Some(rec1)));
    assert(scene_hit_seq(empty, r, t_min, rec1.t@, Some(rec1)) == Some(rec1));
}

/// The aggregation invariant behind the shrinking upper bound: whatever
/// record is carried in (always at the current bound), the fold's result is
/// at or below it, lies inside `(t_min, closest]`, and undercuts every
/// intersection any remaining sphere reports inside that interval.
pub proof fn lemma_seq_nearest(
    objs: Seq<Sphere>,
    r: Ray,
    t_min: int,
    closest: int,
    best: Option<HitRecord>,
)
    requires
        ray_wf(r),
        forall|i: int| 0 <= i < objs.len() ==> (#[trigger] objs[i]).wf(),
        best is Some ==> best.unwrap().t@ == closest && t_min < closest,
    ensures
        best is Some ==> scene_hit_seq(objs, r, t_min, closest, best) is Some,
        scene_hit_seq(objs, r, t_min, closest, best) is Some ==> t_min < scene_hit_seq(objs,
            r, t_min, closest, best).unwrap().t@ <= closest,
        forall|j: int|
            0 <= j < objs.len() && (#[trigger] sphere_hit_spec(objs[j], r, t_min, closest))
                is Some ==> scene_hit_seq(objs, r, t_min, closest, best) is Some
                && scene_hit_seq(objs, r, t_min, closest, best).unwrap().t@
                <= sphere_hit_spec(objs[j], r, t_min, closest).unwrap().t@,
    decreases objs.len(),
{
    if objs.len() > 0 {
        let rest = objs.drop_first();
        assert(forall|i: int| 0 <= i < rest.len() ==> (#[trigger] rest[i]).wf());
        match sphere_hit_spec(objs[0], r, t_min, closest) {
            Option::Some(rec0) => {
                lemma_hit_in_interval(objs[0], r, t_min, closest);
                lemma_seq_nearest(rest, r, t_min, rec0.t@, Option::Some(rec0));
                let res = scene_hit_seq(objs, r, t_min, closest, best);
                assert(res == scene_hit_seq(rest, r, t_min, rec0.t@, Option::Some(rec0)));
                assert forall|j: int|
                    0 <= j < objs.len() && (#[trigger] sphere_hit_spec(objs[j], r, t_min,
                        closest)) is Some implies res is Some && res.unwrap().t@
                    <= sphere_hit_spec(objs[j], r, t_min, closest).unwrap().t@ by {
                    if j > 0 {
                        assert(rest[j - 1] == objs[j]);
                        let recj = sphere_hit_spec(objs[j], r, t_min, closest).unwrap();
                        if recj.t@ < rec0.t@ {
                            lemma_shrink_keep(objs[j], r, t_min, closest, rec0.t@);
                            assert(sphere_hit_spec(rest[j - 1], r, t_min, rec0.t@) is Some);
                        }
                    }
                }
            },
            Option::None => {
                lemma_seq_nearest(rest, r, t_min, closest, best);
                assert(forall|j: int|
                    1 <= j < objs.len() ==> #[trigger] sphere_hit_spec(objs[j], r, t_min,
                        closest) == sphere_hit_spec(rest[j - 1], r, t_min, closest));
            },
        }
    }
}

/// Nearest-hit selection is global and independent of insertion order: the
/// scene reports an intersection exactly as near as any of its spheres
/// allows — if any sphere intersects inside `(t_min, t_max]`, the scene
/// reports a record, that record's parameter lies in the interval, and no
/// sphere's own intersection beats it.
pub proof fn lemma_scene_hit_nearest(objs: Seq<Sphere>, r: Ray, t_min: int, t_max: int)
    requires
        ray_wf(r),
        forall|i: int| 0 <= i < objs.len() ==> (#[trigger] objs[i]).wf(),
    ensures
        scene_hit_spec(objs, r, t_min, t_max) is Some ==> t_min < scene_hit_spec(objs, r,
            t_min, t_max).unwrap().t@ <= t_max,
        forall|j: int|
            0 <= j < objs.len() && (#[trigger] sphere_hit_spec(objs[j], r, t_min, t_max))
                is Some ==> scene_hit_spec(objs, r, t_min, t_max) is Some
                && scene_hit_spec(objs, r, t_min, t_max).unwrap().t@
                <= sphere_hit_spec(objs[j], r, t_min, t_max).unwrap().t@,
{
    lemma_seq_nearest(objs, r, t_min, t_max, Option::None);
}

/// For any accepted intersection, `front_face` holds exactly when the ray
/// direction and the outward normal point against each other, and the
/// reported normal is the outward normal oriented by that flag.
pub proof fn lemma_normal_orientation(s: Sphere, r: Ray, t_min: int, t_max: int)
    requires
        s.wf(),
        ray_wf(r),
        sphere_hit_spec(s, r, t_min, t_max) is Some,
    ensures
        sphere_hit_spec(s, r, t_min, t_max).unwrap().front_face == (dot3(r.dir,
            outward_of(s, r, t_min, t_max)) < 0),
        sphere_hit_spec(s, r, t_min, t_max).unwrap().normal == normal_of(s, r, t_min, t_max),
        dot3(r.dir, outward_of(s, r, t_min, t_max)) < 0 ==> sphere_hit_spec(s, r, t_min,
            t_max).unwrap().normal == outward_of(s, r, t_min, t_max),
{
}

/// Querying an unmodified scene twice with identical arguments returns
/// identical results: the query has no hidden state.
pub fn hit_twice(world: &HittableList, r: &Ray, t_min: Fx, t_max: Fx) -> (pair: (
    Option<HitRecord>,
    Option<HitRecord>,
))
    requires
        ray_wf(*r),
        forall|i: int| 0 <= i < world.objects@.len() ==> (#[trigger] world.objects@[i]).wf(),
    ensures
        pair.0 == pair.1,
        pair.0 == scene_hit_spec(world.objects@, *r, t_min@, t_max@),
{
    let first = world.hit(r, t_min, t_max);
    let second = world.hit(r, t_min, t_max);
    (first, second)
}

} // verus!
