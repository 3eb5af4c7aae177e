use ray_trace::trace::{DiffuseMaterial, MetalMaterial, Sphere};
use ray_trace::{Camera, MaterialKind, Ray, Surface, Vec3, World};

fn v(x: i64, y: i64, z: i64) -> Vec3 {
    Vec3 { x, y, z }
}

fn diffuse(albedo: Vec3) -> MaterialKind {
    MaterialKind::Diffuse(DiffuseMaterial { albedo })
}

fn mirror() -> MaterialKind {
    MaterialKind::Metal(MetalMaterial { albedo: v(65536, 65536, 65536), fuzz: 0 })
}

fn sphere(center: Vec3, radius: i64) -> Surface {
    Surface::Sphere(Sphere { center, radius })
}

#[test]
fn world_add_assigns_stable_indices() {
    let mut world = World::new();
    assert_eq!(world.objs.len(), 0);
    world.add(sphere(v(0, 0, -65536), 32768), diffuse(v(52428, 19660, 19660)));
    world.add(sphere(v(0, -6586368, -65536), 6553600), diffuse(v(52428, 52428, 0)));
    world.add(sphere(v(65536, 0, -65536), 32768), mirror());
    assert_eq!(world.objs.len(), 3);
    for (i, obj) in world.objs.iter().enumerate() {
        assert_eq!(obj.ix, i);
    }
}

#[test]
fn nearest_hit_wins_regardless_of_insertion_order() {
    let ray = Ray { origin: v(0, 0, 0), dir: v(0, 0, -65536) };
    let near = sphere(v(0, 0, -65536), 32768);
    let far = sphere(v(0, 0, -262144), 32768);

    let mut w1 = World::new();
    w1.add(near, diffuse(v(32768, 32768, 32768)));
    w1.add(far, diffuse(v(32768, 32768, 32768)));
    let r1 = w1.hit(&ray, 65, 0x40000000).expect("both spheres lie on the ray");
    assert_eq!(r1.data.t, 32768);
    assert_eq!(r1.obj_ix, 0);

    let mut w2 = World::new();
    w2.add(far, diffuse(v(32768, 32768, 32768)));
    w2.add(near, diffuse(v(32768, 32768, 32768)));
    let r2 = w2.hit(&ray, 65, 0x40000000).expect("both spheres lie on the ray");
    assert_eq!(r2.data.t, 32768);
    assert_eq!(r2.obj_ix, 1);

    assert_eq!(r1.data, r2.data);
}

#[test]
fn exact_tie_keeps_the_earliest_entry() {
    // two coincident spheres hit at exactly the same t: the entry
    // inserted first wins the tie
    let ray = Ray { origin: v(0, 0, 0), dir: v(0, 0, -65536) };
    let s = sphere(v(0, 0, -65536), 32768);
    let mut world = World::new();
    world.add(s, diffuse(v(32768, 32768, 32768)));
    world.add(s, mirror());
    let rec = world.hit(&ray, 65, 0x40000000).expect("the spheres are straight ahead");
    assert_eq!(rec.obj_ix, 0);
    assert_eq!(rec.data.t, 32768);
}

#[test]
fn aggregate_miss_when_no_sphere_is_hit() {
    let mut world = World::new();
    world.add(sphere(v(0, 0, -262144), 32768), mirror());
    let ray = Ray { origin: v(0, 0, 0), dir: v(0, 65536, 0) };
    assert!(world.hit(&ray, 65, 0x40000000).is_none());
}

#[test]
fn end_to_end_single_sphere_straight_down_z() {
    // One half-unit sphere one unit down -z; the center camera ray goes
    // straight down -z and must report the near hit with the outward
    // normal pointing back at the camera.
    let mut world = World::new();
    world.add(sphere(v(0, 0, -65536), 32768), diffuse(v(52428, 19660, 19660)));

    let cam = Camera::new();
    let ray = cam.ray(32768, 32768);
    assert_eq!(ray.origin, v(0, 0, 0));
    assert_eq!(ray.dir, v(0, 0, -65536));

    let rec = world.hit(&ray, 65, 0x40000000).expect("the sphere is straight ahead");
    assert_eq!(rec.obj_ix, 0);
    assert_eq!(rec.data.t, 32768);
    assert_eq!(rec.data.pos, v(0, 0, -32768));
    assert_eq!(rec.data.n, v(0, 0, 65536));

    // a two-pixel-wide render of the same scene stays within [0, 1]
    for u in [16384, 49152] {
        let c = ray_trace::color(&cam.ray(u, 32768), &world, 16);
        for ch in [c.x, c.y, c.z] {
            assert!((0..=65536).contains(&ch));
        }
    }
}

#[test]
fn camera_ray_corners_are_exact() {
    let cam = Camera::new();
    assert_eq!(cam.ray(0, 0).dir, v(-131072, -65536, -65536));
    assert_eq!(cam.ray(65536, 65536).dir, v(131072, 65536, -65536));
    assert_eq!(cam.ray(65536, 0).dir, v(131072, -65536, -65536));
}
