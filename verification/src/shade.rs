use vstd::prelude::*;
use crate::fixed::{
    Fx, fx_mul, fx_div, fx_sqrt, lemma_fx_mul_bound, lemma_fx_div_bound, lemma_isqrt_ge,
};
use crate::vec3::{Vec3, Color, dot3};
use crate::ray::{Ray, ray_wf};
use crate::hit::{HitRecord, HittableList, scene_hit_spec, lemma_scene_rec_bounded};

verus! {

/// The color of a hit: a normal-visualization shade, one and a half times
/// the componentwise product of the normal with white.
pub open spec fn shade_hit(rec: HitRecord) -> Vec3 {
    Vec3 {
        x: Fx { bits: fx_mul(98304, fx_mul(rec.normal.x@, 65536)) as i64 },
        y: Fx { bits: fx_mul(98304, fx_mul(rec.normal.y@, 65536)) as i64 },
        z: Fx { bits: fx_mul(98304, fx_mul(rec.normal.z@, 65536)) as i64 },
    }
}

/// The color of a miss: a vertical blend from white at the horizon toward
/// the sky color, driven by the unit direction's height.
pub open spec fn background_of(r: Ray) -> Vec3 {
    let uy = fx_div(r.dir.y@, fx_sqrt(dot3(r.dir, r.dir)));
    let t = fx_mul(32768, uy + 65536);
    Vec3 {
        x: Fx { bits: (fx_mul(65536 - t, 65536) + fx_mul(t, 32768)) as i64 },
        y: Fx { bits: (fx_mul(65536 - t, 65536) + fx_mul(t, 45875)) as i64 },
        z: Fx { bits: (fx_mul(65536 - t, 65536) + fx_mul(t, 65536)) as i64 },
    }
}

/// The color a ray resolves to against a scene: the shade of the nearest
/// intersection in `(0, +infinity)`, or the background gradient.
pub open spec fn ray_color_spec(objs: Seq<crate::hit::Sphere>, r: Ray) -> Vec3 {
    match scene_hit_spec(objs, r, 0, i64::MAX as int) {
        Option::Some(rec) => shade_hit(rec),
        Option::None => background_of(r),
    }
}

/// Resolves one ray against the scene to a pixel color: a pure function of
/// the ray and the scene.
pub fn ray_color(r: &Ray, world: &HittableList) -> (color: Color)
    requires
        ray_wf(*r),
        forall|i: int| 0 <= i < world.objects@.len() ==> (#[trigger] world.objects@[i]).wf(),
    ensures
        color == ray_color_spec(world.objects@, *r),
{
    let res = world.hit(r, Fx::from_bits(0), Fx::from_bits(0x7fffffffffffffff));
    proof {
        lemma_scene_rec_bounded(world.objects@, *r, 0, i64::MAX as int, Option::None);
    }
    match res {
        Option::Some(rec) => {
            proof {
                lemma_fx_mul_bound(rec.normal.x@, 65536, 2111062593765376, 65536);
                lemma_fx_mul_bound(rec.normal.y@, 65536, 2111062593765376, 65536);
                lemma_fx_mul_bound(rec.normal.z@, 65536, 2111062593765376, 65536);
                lemma_fx_mul_bound(98304, fx_mul(rec.normal.x@, 65536), 98304,
                    2111062593765376);
                lemma_fx_mul_bound(98304, fx_mul(rec.normal.y@, 65536), 98304,
                    2111062593765376);
                lemma_fx_mul_bound(98304, fx_mul(rec.normal.z@, 65536), 98304,
                    2111062593765376);
            }
            let white = Vec3::new(Fx::from_bits(65536), Fx::from_bits(65536),
                Fx::from_bits(65536));
            rec.normal.mul_comp(white).scale(Fx::from_bits(98304))
        },
        Option::None => {
            proof {
                lemma_fx_mul_bound(r.dir.x@, r.dir.x@, 67108864, 67108864);
                lemma_fx_mul_bound(r.dir.y@, r.dir.y@, 67108864, 67108864);
                lemma_fx_mul_bound(r.dir.z@, r.dir.z@, 67108864, 67108864);
                lemma_isqrt_ge(dot3(r.dir, r.dir) * 65536, 65536);
                lemma_fx_div_bound(r.dir.y@, fx_sqrt(dot3(r.dir, r.dir)), 67108864, 65536);
            }
            let u_direction = r.dir.normalize();
            let t = Fx::from_bits(32768).mul(u_direction.y.add(Fx::from_bits(65536)));
            proof {
                lemma_fx_mul_bound(32768, fx_div(r.dir.y@, fx_sqrt(dot3(r.dir, r.dir)))
                    + 65536, 32768, 67174400);
                lemma_fx_mul_bound(65536 - t@, 65536, 33652736, 65536);
                lemma_fx_mul_bound(t@, 32768, 33587200, 32768);
                lemma_fx_mul_bound(t@, 45875, 33587200, 45875);
                lemma_fx_mul_bound(t@, 65536, 33587200, 65536);
            }
            let white = Vec3::new(Fx::from_bits(65536), Fx::from_bits(65536),
                Fx::from_bits(65536));
            let sky = Vec3::new(Fx::from_bits(32768), Fx::from_bits(45875),
                Fx::from_bits(65536));
            let one = Fx::from_bits(65536);
            white.scale(one.sub(t)).add(sky.scale(t))
        },
    }
}

} // verus!
