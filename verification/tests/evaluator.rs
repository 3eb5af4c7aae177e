use ray_trace::trace::{MetalMaterial, Sphere};
use ray_trace::{color, Color8u, MaterialKind, Ray, Surface, Vec3, World};

fn v(x: i64, y: i64, z: i64) -> Vec3 {
    Vec3 { x, y, z }
}

#[test]
fn background_straight_down_is_white() {
    let world = World::new();
    let ray = Ray { origin: v(0, 0, 0), dir: v(0, -65536, 0) };
    assert_eq!(color(&ray, &world, 8), v(65536, 65536, 65536));
}

#[test]
fn background_straight_up_is_sky_blue() {
    let world = World::new();
    let ray = Ray { origin: v(0, 0, 0), dir: v(0, 65536, 0) };
    assert_eq!(color(&ray, &world, 8), v(32768, 45875, 65536));
}

#[test]
fn background_is_exact_for_unnormalized_directions_too() {
    let world = World::new();
    // (0, -3, 0) normalizes to straight down exactly
    let ray = Ray { origin: v(0, 0, 0), dir: v(0, -196608, 0) };
    assert_eq!(color(&ray, &world, 8), v(65536, 65536, 65536));
}

#[test]
fn mirror_corridor_returns_black_at_depth_limit() {
    // Two perfect mirrors facing each other along z; the axis ray bounces
    // between them forever, so the evaluator must cut it off at the depth
    // bound and report black rather than recurse without end.
    let mut world = World::new();
    let white = v(65536, 65536, 65536);
    world.add(
        Surface::Sphere(Sphere { center: v(0, 0, -131072), radius: 65536 }),
        MaterialKind::Metal(MetalMaterial { albedo: white, fuzz: 0 }),
    );
    world.add(
        Surface::Sphere(Sphere { center: v(0, 0, 131072), radius: 65536 }),
        MaterialKind::Metal(MetalMaterial { albedo: white, fuzz: 0 }),
    );
    let ray = Ray { origin: v(0, 0, 0), dir: v(0, 0, -65536) };
    assert_eq!(color(&ray, &world, 12), v(0, 0, 0));
    assert_eq!(color(&ray, &world, 1), v(0, 0, 0));
}

#[test]
fn depth_zero_is_black_everywhere() {
    let world = World::new();
    let ray = Ray { origin: v(0, 0, 0), dir: v(0, 65536, 0) };
    assert_eq!(color(&ray, &world, 0), v(0, 0, 0));
}

#[test]
fn from_normalized_maps_channels_exactly() {
    // floor(255.9 * x) for x = 1.0, 0.0, 0.5
    let c = Color8u::from_normalized(v(65536, 0, 32768));
    assert_eq!(c, Color8u { r: 255, g: 0, b: 127 });
}

#[test]
fn from_normalized_clamps_out_of_range_channels() {
    let c = Color8u::from_normalized(v(-5000, 70000, 65536));
    assert_eq!(c, Color8u { r: 0, g: 255, b: 255 });
}
