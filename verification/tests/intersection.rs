use raytrace::fixed::Fx;
use raytrace::hit::{HittableList, Sphere};
use raytrace::laws::hit_twice;
use raytrace::ray::Ray;
use raytrace::shade::ray_color;
use raytrace::vec3::Vec3;

fn fx(v: i32) -> Fx {
    Fx::from_int(v)
}

fn vec(x: i32, y: i32, z: i32) -> Vec3 {
    Vec3::new(fx(x), fx(y), fx(z))
}

#[test]
fn test() {
    let orig = vec(0, 1, 2);
    let dir = vec(3, 4, 5).normalize();
    let ray = Ray::new(&orig, &dir);
    assert_eq!(ray.orig, orig);
}

#[test]
fn at_scales() {
    let orig = vec(0, 1, 2);
    let dir = vec(3, 4, 5).normalize();
    let ray = Ray::new(&orig, &dir);
    let proj = ray.at(fx(3));
    assert_eq!(proj, orig.add(dir.scale(fx(3))));
}

#[test]
fn axis_ray_hits_origin_sphere() {
    // Sphere of radius 1 at the origin, ray origin (0, 0, 1 + 2), unit
    // direction toward it: the hit is at t = 2, point (0, 0, 1), outward
    // normal (0, 0, 1), striking the front face.
    let s = Sphere::new(vec(0, 0, 0), fx(1));
    let ray = Ray::new(&vec(0, 0, 3), &vec(0, 0, -1));
    let rec = s.hit(&ray, fx(0), fx(100)).unwrap();
    assert_eq!(rec.t, fx(2));
    assert_eq!(rec.p, vec(0, 0, 1));
    assert_eq!(rec.normal, vec(0, 0, 1));
    assert!(rec.front_face);
}

#[test]
fn ray_pointing_away_misses() {
    let s = Sphere::new(vec(0, 0, 0), fx(1));
    let ray = Ray::new(&vec(0, 0, 3), &vec(0, 0, 1));
    assert!(s.hit(&ray, fx(0), fx(1000)).is_none());
    assert!(s.hit(&ray, fx(0), Fx::from_bits(i64::MAX)).is_none());
}

#[test]
fn nearest_of_two_spheres_wins() {
    let near = Sphere::new(vec(0, 0, -2), fx(1));
    let far = Sphere::new(vec(0, 0, -6), fx(1));
    let ray = Ray::new(&vec(0, 0, 0), &vec(0, 0, -1));

    let mut world = HittableList::new();
    world.add(near);
    world.add(far);
    let rec = world.hit(&ray, fx(0), fx(1000)).unwrap();
    assert_eq!(rec.t, fx(1));

    let mut reversed = HittableList::new();
    reversed.add(far);
    reversed.add(near);
    let rec2 = reversed.hit(&ray, fx(0), fx(1000)).unwrap();
    assert_eq!(rec2.t, fx(1));
}

#[test]
fn root_at_t_min_is_rejected() {
    // Roots at t = 2 and t = 4: with t_min = 2 the near root is rejected
    // exactly on the bound and the far root is taken instead; with t_min = 4
    // nothing qualifies.
    let s = Sphere::new(vec(0, 0, 0), fx(1));
    let ray = Ray::new(&vec(0, 0, 3), &vec(0, 0, -1));
    let rec = s.hit(&ray, fx(2), fx(10)).unwrap();
    assert_eq!(rec.t, fx(4));
    assert!(s.hit(&ray, fx(4), fx(10)).is_none());
}

#[test]
fn root_at_t_max_is_accepted() {
    let s = Sphere::new(vec(0, 0, 0), fx(1));
    let ray = Ray::new(&vec(0, 0, 3), &vec(0, 0, -1));
    let rec = s.hit(&ray, fx(0), fx(2)).unwrap();
    assert_eq!(rec.t, fx(2));
    assert!(s.hit(&ray, fx(0), Fx::from_bits(2 * 65536 - 1)).is_none());
}

#[test]
fn accepted_normal_is_unit_and_oriented() {
    let center = vec(0, 0, -3);
    let radius = fx(1);
    let s = Sphere::new(center, radius);
    let ray = Ray::new(&vec(0, 0, 0), &Vec3::new(Fx::from_bits(16384), fx(0), fx(-1)));
    let rec = s.hit(&ray, fx(0), fx(100)).unwrap();

    let unit_sq = rec.normal.dot(rec.normal);
    assert!((unit_sq.bits - 65536).abs() <= 64);

    let outward = rec.p.sub(center).div_by(radius);
    let facing = ray.dir.dot(outward);
    assert_eq!(rec.front_face, facing.bits < 0);
    if rec.front_face {
        assert_eq!(rec.normal, outward);
    } else {
        assert_eq!(rec.normal, outward.neg());
    }
}

#[test]
fn hit_from_inside_flips_normal() {
    // From the center of a sphere every direction strikes the back face.
    let s = Sphere::new(vec(0, 0, 0), fx(2));
    let ray = Ray::new(&vec(0, 0, 0), &vec(0, 0, -1));
    let rec = s.hit(&ray, fx(0), fx(100)).unwrap();
    assert_eq!(rec.t, fx(2));
    assert!(!rec.front_face);
    assert_eq!(rec.normal, vec(0, 0, 1));
}

#[test]
fn identical_queries_are_identical() {
    let mut world = HittableList::new();
    world.add(Sphere::new(vec(0, 0, -2), fx(1)));
    world.add(Sphere::new(vec(0, 3, -5), fx(2)));
    let ray = Ray::new(&vec(0, 0, 0), &Vec3::new(Fx::from_bits(16384), fx(0), fx(-1)));

    let first = world.hit(&ray, fx(0), fx(1000));
    let second = world.hit(&ray, fx(0), fx(1000));
    assert_eq!(first, second);

    let pair = hit_twice(&world, &ray, fx(0), fx(1000));
    assert_eq!(pair.0, pair.1);
}

#[test]
fn standalone_probe_matches_geometry() {
    let ray = Ray::new(&vec(0, 0, 3), &vec(0, 0, -1));
    assert_eq!(raytrace::hit::hit_sphere(vec(0, 0, 0), fx(1), &ray), fx(2));
    let offset = Ray::new(&vec(2, 0, 3), &vec(0, 0, -1));
    assert_eq!(raytrace::hit::hit_sphere(vec(0, 0, 0), fx(1), &offset), fx(-1));
}

#[test]
fn empty_scene_reports_nothing() {
    let world = HittableList::new();
    let ray = Ray::new(&vec(0, 0, 0), &vec(0, 0, -1));
    assert!(world.hit(&ray, fx(0), fx(1000)).is_none());
}

#[test]
fn end_to_end_unit_sphere() {
    // A single sphere of radius one half at (0, 0, -1): the ray straight at
    // it hits at t = 0.5; the ray toward (1, 1, 1) misses and the shader
    // falls back to the background gradient.
    let mut world = HittableList::new();
    world.add(Sphere::new(vec(0, 0, -1), Fx::from_bits(32768)));

    let ray = Ray::new(&vec(0, 0, 0), &vec(0, 0, -1));
    let rec = world.hit(&ray, fx(0), Fx::from_bits(i64::MAX)).unwrap();
    assert_eq!(rec.t, Fx::from_bits(32768));
    assert_eq!(rec.normal, vec(0, 0, 1));

    let miss = Ray::new(&vec(0, 0, 0), &vec(1, 1, 1));
    assert!(world.hit(&miss, fx(0), Fx::from_bits(i64::MAX)).is_none());

    let white = vec(1, 1, 1);
    let sky = Vec3::new(Fx::from_bits(32768), Fx::from_bits(45875), fx(1));
    let unit = miss.dir.normalize();
    let t = Fx::from_bits(32768).mul(unit.y.add(fx(1)));
    let expected = white.scale(fx(1).sub(t)).add(sky.scale(t));
    assert_eq!(ray_color(&miss, &world), expected);

    let shaded = ray_color(&ray, &world);
    let scaled_normal = rec.normal.mul_comp(white).scale(Fx::from_bits(98304));
    assert_eq!(shaded, scaled_normal);
}
