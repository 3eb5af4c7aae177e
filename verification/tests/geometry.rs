use ray_trace::fixed::{fp_div, fp_mul, fp_sqrt, isqrt, SCALE};
use ray_trace::trace::Sphere;
use ray_trace::{Hit, HitData, Ray, Vec3};

fn v(x: i64, y: i64, z: i64) -> Vec3 {
    Vec3 { x, y, z }
}

#[test]
fn fixed_mul_exact_values() {
    assert_eq!(SCALE, 65536);
    // 1.5 * 0.5 == 0.75
    assert_eq!(fp_mul(98304, 32768), 49152);
    assert_eq!(fp_mul(-98304, 32768), -49152);
    assert_eq!(fp_mul(98304, -32768), -49152);
    assert_eq!(fp_mul(-98304, -32768), 49152);
    // rounding is toward zero
    assert_eq!(fp_mul(3, 3), 0);
    assert_eq!(fp_mul(-65537, 1), -1);
}

#[test]
fn fixed_div_exact_values() {
    // 1.0 / 2.0 == 0.5
    assert_eq!(fp_div(65536, 131072), 32768);
    assert_eq!(fp_div(-65536, 131072), -32768);
    // 1/3 in units, rounded toward zero
    assert_eq!(fp_div(1, 3), 21845);
}

#[test]
fn fixed_sqrt_exact_values() {
    assert_eq!(isqrt(0), 0);
    assert_eq!(isqrt(10), 3);
    assert_eq!(isqrt(65536), 256);
    assert_eq!(fp_sqrt(0), 0);
    // sqrt(1.0) == 1.0, sqrt(4.0) == 2.0
    assert_eq!(fp_sqrt(65536), 65536);
    assert_eq!(fp_sqrt(262144), 131072);
}

#[test]
fn ray_expr_walks_the_ray() {
    let ray = Ray { origin: v(65536, 0, 0), dir: v(0, 65536, 0) };
    assert_eq!(ray.expr(131072), v(65536, 131072, 0));
    assert_eq!(ray.expr(0), v(65536, 0, 0));
}

#[test]
fn sphere_head_on_hit_exact() {
    // A unit-distance ray straight at a half-unit sphere at the origin:
    // t is the distance to the surface, the hit point sits on the sphere,
    // and the normal is exactly unit length.
    let s = Sphere { center: v(0, 0, 0), radius: 32768 };
    let ray = Ray { origin: v(0, 0, 65536), dir: v(0, 0, -65536) };
    let got = s.hit(&ray, 65, 0x40000000);
    assert_eq!(
        got,
        Some(HitData { t: 32768, pos: v(0, 0, 32768), n: v(0, 0, 65536) })
    );
}

#[test]
fn sphere_negative_discriminant_always_misses() {
    // The ray runs perpendicular to the sphere direction, far away:
    // the discriminant is negative and no range produces a hit.
    let s = Sphere { center: v(0, 0, 0), radius: 32768 };
    let ray = Ray { origin: v(0, 0, 131072), dir: v(0, 65536, 0) };
    assert_eq!(s.hit(&ray, 0, 0x40000000), None);
    assert_eq!(s.hit(&ray, 65, 1000000), None);
    assert_eq!(s.hit(&ray, 1000, 2000), None);
}

#[test]
fn degenerate_direction_never_hits() {
    // A direction too short to carry one fixed-point unit of squared
    // length cannot form the quadratic; the test reports a miss.
    let s = Sphere { center: v(0, 0, 0), radius: 32768 };
    let ray = Ray { origin: v(0, 0, 65536), dir: v(0, 0, -1) };
    assert_eq!(s.hit(&ray, 65, 0x40000000), None);
}

#[test]
fn unit_direction_of_short_vectors() {
    // too short to normalize
    assert_eq!(v(1, 0, 0).unit(), None);
    assert_eq!(v(0, 0, 0).unit(), None);
    // exact axis directions normalize exactly
    assert_eq!(v(0, 0, -196608).unit(), Some(v(0, 0, -65536)));
    assert_eq!(v(131072, 0, 0).unit(), Some(v(65536, 0, 0)));
}

#[test]
fn sphere_hit_respects_range() {
    let s = Sphere { center: v(0, 0, 0), radius: 32768 };
    let ray = Ray { origin: v(0, 0, 65536), dir: v(0, 0, -65536) };
    // the hit at t = 32768 is filtered out by a range that excludes it
    assert_eq!(s.hit(&ray, 65, 32767), None);
    assert_eq!(s.hit(&ray, 32769, 0x40000000), None);
    // and kept by one that includes it, ends inclusive
    assert!(s.hit(&ray, 32768, 32768).is_some());
}
