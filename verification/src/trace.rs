//! Concrete surfaces and materials: the sphere, the Lambertian diffuse
//! material and the (possibly fuzzy) metal material.

use vstd::prelude::*;
use crate::fixed::{fmul, fdiv, fsqrt, fp_mul, fp_div, fp_sqrt};
use crate::fixed::{lemma_fmul_bound, lemma_fdiv_bounds, lemma_sqrt_floor_below, lemma_sqrt_floor_unique, lemma_fmul_neg, lemma_fmul_multiples, lemma_fmul_zero, lemma_tdiv_scale_exact, lemma_tdiv_mul_exact};
use vstd::arithmetic::div_mod::lemma_div_of0;
use crate::vec3::{Vec3, zero, sv_bounded, sv_ok, sv_plus, sv_minus, sv_neg, sv_scale, sv_div, sv_dot, sv_len_sq, sv_unit, sv_reflect, lemma_sv_dot_bound, lemma_sv_len_sq_nonneg};
use crate::ray::{Ray, ray_wf, ray_at};
use crate::hit::{Hit, HitData, HitRecord, hit_data_wf, normal_ok};
use crate::material::{Material, ScatterRecord, color_wf, in_unit_ball, random_point_in_unit_sphere};

verus! {

#[derive(Clone, Copy, Debug, PartialEq, Eq, Structural)]
pub struct Sphere {
    pub center: Vec3,
    pub radius: i64,
}

/// A scene sphere: center within the scene bound, radius positive and
/// within it too.
pub open spec fn sphere_wf(s: Sphere) -> bool {
    &&& sv_bounded(s.center, 0x800000)
    &&& 0 < s.radius <= 0x800000
}

/// Quadratic coefficient a = dir . dir of the ray/sphere intersection.
pub open spec fn sphere_quad_a(s: Sphere, ray: Ray) -> int {
    sv_dot(ray.dir, ray.dir)
}

/// Quadratic coefficient b = 2 * (origin - center) . dir.
pub open spec fn sphere_quad_b(s: Sphere, ray: Ray) -> int {
    2 * sv_dot(sv_minus(ray.origin, s.center), ray.dir)
}

/// Quadratic coefficient c = |origin - center|^2 - radius^2.
pub open spec fn sphere_quad_c(s: Sphere, ray: Ray) -> int {
    sv_len_sq(sv_minus(ray.origin, s.center)) - fmul(s.radius as int, s.radius as int)
}

/// Discriminant b^2 - 4ac; negative means the ray misses the sphere.
pub open spec fn sphere_disc(s: Sphere, ray: Ray) -> int {
    fmul(sphere_quad_b(s, ray), sphere_quad_b(s, ray)) - 4 * fmul(
        sphere_quad_a(s, ray),
        sphere_quad_c(s, ray),
    )
}

/// The exact outcome of the sphere hit test: solve the quadratic, take the
/// nearer root only (a ray starting inside the sphere whose near root lies
/// behind t_min counts as a miss — deliberately so), accept it within
/// [t_min, t_max], and reject any hit whose point or normal the
/// fixed-point arithmetic has distorted out of tolerance.
pub open spec fn sphere_hit_spec(s: Sphere, ray: Ray, t_min: i64, t_max: i64) -> Option<HitData> {
    let a = sphere_quad_a(s, ray);
    let b = sphere_quad_b(s, ray);
    let disc = sphere_disc(s, ray);
    if a <= 0 {
        None
    } else if disc < 0 {
        None
    } else {
        let t = fdiv(-b - fsqrt(disc), 2 * a);
        if t < t_min || t > t_max {
            None
        } else {
            let pos = ray_at(ray, t);
            if !sv_bounded(pos, 0x2000000) {
                None
            } else {
                let n = sv_div(sv_minus(pos, s.center), s.radius as int);
                if !normal_ok(n) {
                    None
                } else {
                    Some(HitData { t: t as i64, pos, n })
                }
            }
        }
    }
}

impl Hit for Sphere {
    open spec fn hit_req(&self, ray: Ray, t_min: i64, t_max: i64) -> bool {
        &&& sphere_wf(*self)
        &&& ray_wf(ray)
        &&& 0 <= t_min
        &&& t_max <= 0x40000000
    }

    open spec fn hit_spec(&self, ray: Ray, t_min: i64, t_max: i64) -> Option<HitData> {
        sphere_hit_spec(*self, ray, t_min, t_max)
    }

    fn hit(&self, ray: &Ray, t_min: i64, t_max: i64) -> (r: Option<HitData>) {
        let face = ray.origin.minus(self.center);
        proof {
            lemma_sv_dot_bound(ray.dir, ray.dir, 0x800000);
            lemma_sv_dot_bound(face, ray.dir, 0x4000000);
            lemma_sv_dot_bound(face, face, 0x4000000);
            lemma_sv_len_sq_nonneg(ray.dir);
            lemma_fmul_bound(self.radius as int, self.radius as int, 0x800000, 0x800000);
        }
        let a: i64 = ray.dir.dot(ray.dir);
        let b: i64 = 2 * face.dot(ray.dir);
        let c: i64 = face.dot(face) - fp_mul(self.radius, self.radius);
        proof {
            lemma_fmul_bound(b as int, b as int, 0x6000000000, 0x6000000000);
            lemma_fmul_bound(a as int, c as int, 0xC0000000, 0x4000000000);
        }
        let disc: i64 = fp_mul(b, b) - 4 * fp_mul(a, c);

        if a <= 0 {
            return None;
        }
        if disc < 0 {
            // two complex solutions: no hit point
            return None;
        }

        // the closer of the two solutions of the quadratic equation
        let sq: i64 = fp_sqrt(disc);
        proof {
            lemma_sqrt_floor_below((disc as int * 65536) as nat, 0x8000000000nat);
            lemma_fdiv_bounds(-b as int - sq as int, 2 * a as int, 0xE000000000);
        }
        let t: i64 = fp_div(-b - sq, 2 * a);

        // not in range; filtered
        if t < t_min || t > t_max {
            return None;
        }

        let hit_point = ray.expr(t);
        if !hit_point.bounded_by(0x2000000) {
            return None;
        }
        let n = hit_point.minus(self.center).divided(self.radius);
        if !n.bounded_by(131072) {
            return None;
        }
        let nlsq: i64 = n.dot(n);
        if nlsq < 64512 || nlsq > 66560 {
            return None;
        }

        Some(HitData { t, pos: hit_point, n })
    }
}

/// A ray whose discriminant is negative misses the sphere, whatever the
/// parametric range.
pub proof fn lemma_negative_discriminant_misses(s: Sphere, ray: Ray, t_min: i64, t_max: i64)
    requires
        sphere_disc(s, ray) < 0,
    ensures
        sphere_hit_spec(s, ray, t_min, t_max) is None,
{
}

/// Every hit a sphere reports lies within the range it was asked about.
pub proof fn lemma_sphere_hit_in_range(s: Sphere, ray: Ray, t_min: i64, t_max: i64, h: HitData)
    requires
        sphere_hit_spec(s, ray, t_min, t_max) == Some(h),
    ensures
        t_min <= h.t <= t_max,
{
}

/// The parameter a sphere accepts does not depend on the range; the range
/// only filters it. Shrinking the upper bound keeps the hit exactly when
/// its parameter still fits, and never conjures a new one.
pub proof fn lemma_sphere_hit_shrink(
    s: Sphere,
    ray: Ray,
    t_min: i64,
    t_max: i64,
    t_max2: i64,
    h: HitData,
)
    requires
        sphere_hit_spec(s, ray, t_min, t_max) == Some(h),
        t_max2 <= t_max,
    ensures
        sphere_hit_spec(s, ray, t_min, t_max2) == (if h.t <= t_max2 {
            Some(h)
        } else {
            None::<HitData>
        }),
{
}

/// Widening the upper bound keeps a reported hit: the accepted parameter
/// already lay inside the smaller range.
pub proof fn lemma_sphere_hit_grow(
    s: Sphere,
    ray: Ray,
    t_min: i64,
    t_max: i64,
    t_max2: i64,
    h: HitData,
)
    requires
        sphere_hit_spec(s, ray, t_min, t_max) == Some(h),
        t_max <= t_max2,
    ensures
        sphere_hit_spec(s, ray, t_min, t_max2) == Some(h),
{
}

/// A sphere that reports no hit on a range reports none on any smaller
/// range either.
pub proof fn lemma_sphere_hit_none_shrink(s: Sphere, ray: Ray, t_min: i64, t_max: i64, t_max2: i64)
    requires
        sphere_hit_spec(s, ray, t_min, t_max) is None,
        t_max2 <= t_max,
    ensures
        sphere_hit_spec(s, ray, t_min, t_max2) is None,
{
}

/// Head-on intersection, exactly: a ray starting on the +z axis at height
/// z0 and aimed straight at a sphere of radius r centered at the origin
/// hits at parameter z0 - r (the distance to the surface), at the point
/// (0, 0, r) — which lies at distance exactly r from the center — with
/// the exactly-unit outward normal (0, 0, 1). Stated for the values the
/// fixed-point arithmetic computes without rounding: z0 and r multiples
/// of 256, i.e. of the square root of the scale.
pub proof fn lemma_head_on_hit(r: i64, z0: i64, t_min: i64, t_max: i64)
    requires
        r % 256 == 0,
        z0 % 256 == 0,
        0 < r <= 0x800000,
        r < z0 <= 0x2000000,
        0 <= t_min <= z0 - r,
        z0 - r <= t_max <= 0x40000000,
    ensures
        ({
            let s = Sphere { center: zero(), radius: r };
            let ray = Ray {
                origin: Vec3 { x: 0, y: 0, z: z0 },
                dir: Vec3 { x: 0, y: 0, z: -65536i64 },
            };
            sphere_hit_spec(s, ray, t_min, t_max) == Some(
                HitData {
                    t: (z0 - r) as i64,
                    pos: Vec3 { x: 0, y: 0, z: r },
                    n: Vec3 { x: 0, y: 0, z: 65536i64 },
                },
            )
        }),
{
    let s = Sphere { center: zero(), radius: r };
    let ray = Ray { origin: Vec3 { x: 0, y: 0, z: z0 }, dir: Vec3 { x: 0, y: 0, z: -65536i64 } };
    let m = z0 as int / 256;
    let k = r as int / 256;
    vstd::arithmetic::div_mod::lemma_fundamental_div_mod(z0 as int, 256);
    vstd::arithmetic::div_mod::lemma_fundamental_div_mod(r as int, 256);
    assert(z0 == 256 * m);
    assert(r == 256 * k);

    let face = sv_minus(ray.origin, s.center);
    assert(face == Vec3 { x: 0, y: 0, z: z0 });

    // a = dot(dir, dir) = 1, exactly
    lemma_fmul_zero(0);
    assert(fmul(-65536, -65536) == 65536) by {
        lemma_fmul_neg(65536, -65536);
        lemma_fmul_neg(65536, 65536);
        lemma_tdiv_scale_exact(65536);
    }
    assert(sphere_quad_a(s, ray) == 65536);

    // b = 2 * dot(face, dir) = -2 * z0, exactly
    assert(fmul(z0 as int, -65536) == -(z0 as int)) by {
        lemma_fmul_neg(z0 as int, 65536);
        lemma_tdiv_scale_exact(z0 as int);
    }
    assert(sphere_quad_b(s, ray) == -2 * z0);

    // c = |face|^2 - r^2 = m^2 - k^2, exactly
    lemma_fmul_multiples(z0 as int, z0 as int);
    lemma_fmul_multiples(r as int, r as int);
    assert(sphere_quad_c(s, ray) == m * m - k * k);

    // disc = b^2 - 4ac = 4k^2, exactly
    assert((-2 * z0) % 256 == 0) by {
        assert((-2 * z0) == 256 * (-2 * m));
        vstd::arithmetic::div_mod::lemma_mod_multiples_basic(-2 * m, 256);
    }
    lemma_fmul_multiples(-2 * z0, -2 * z0);
    assert((-2 * z0) / 256 == -2 * m) by {
        assert((-2 * z0) == 256 * (-2 * m));
        vstd::arithmetic::div_mod::lemma_div_multiples_vanish(-2 * m, 256);
    }
    assert(fmul(-2 * z0, -2 * z0) == 4 * (m * m)) by (nonlinear_arith)
        requires
            fmul(-2 * z0, -2 * z0) == ((-2 * z0) / 256) * ((-2 * z0) / 256),
            (-2 * z0) / 256 == -2 * m,
    ;
    assert(fmul(65536, m * m - k * k) == m * m - k * k) by {
        lemma_tdiv_scale_exact(m * m - k * k);
    }
    assert(sphere_disc(s, ray) == 4 * (k * k));

    // sqrt(disc) = 2r, exactly
    assert(fsqrt(4 * (k * k)) == 2 * r) by {
        assert((4 * (k * k)) * 65536 == (512 * k) * (512 * k)) by (nonlinear_arith);
        assert(0 <= 4 * (k * k)) by (nonlinear_arith);
        assert(0 <= 512 * k);
        assert((512 * k) * (512 * k) < (512 * k + 1) * (512 * k + 1)) by (nonlinear_arith)
            requires
                0 <= 512 * k,
        ;
        lemma_sqrt_floor_unique(((4 * (k * k)) * 65536) as nat, (512 * k) as nat);
    }
    assert(0 <= sphere_disc(s, ray)) by {
        assert(0 <= 4 * (k * k)) by (nonlinear_arith);
    }

    // t = (-b - sqrt) / (2a) = z0 - r, exactly
    assert(fdiv(2 * z0 - 2 * r, 131072) == z0 - r) by {
        assert((2 * z0 - 2 * r) * 65536 == (z0 as int - r as int) * 131072);
        lemma_tdiv_mul_exact(z0 as int - r as int, 131072);
    }

    // pos = origin + t*dir = (0, 0, r), exactly
    let t = z0 as int - r as int;
    lemma_fmul_zero(t);
    assert(fmul(t, -65536) == -t) by {
        lemma_fmul_neg(t, 65536);
        lemma_tdiv_scale_exact(t);
    }
    assert(ray_at(ray, t) == Vec3 { x: 0, y: 0, z: r });

    // n = (pos - center) / r = (0, 0, 1), exactly
    assert(fdiv(0, r as int) == 0) by {
        lemma_div_of0(r as int);
    }
    assert(fdiv(r as int, r as int) == 65536) by {
        assert((r as int) * 65536 == 65536 * (r as int));
        lemma_tdiv_mul_exact(65536, r as int);
    }
    assert(fmul(65536, 65536) == 65536) by {
        lemma_tdiv_scale_exact(65536);
    }
    assert(normal_ok(Vec3 { x: 0, y: 0, z: 65536i64 }));
}

/// The direction a diffuse bounce leaves along: the normal plus a random
/// interior point, with the normal itself standing in for the (fixed-point
/// only) degenerate case where the two cancel exactly.
pub open spec fn diffuse_dir(n: Vec3, p: Vec3) -> Vec3 {
    if sv_plus(n, p) == zero() {
        n
    } else {
        sv_plus(n, p)
    }
}

/// Lambertian.
#[derive(Clone, Copy, Debug, PartialEq, Eq, Structural)]
pub struct DiffuseMaterial {
    pub albedo: Vec3,
}

impl Material for DiffuseMaterial {
    open spec fn scatter_req(&self, ray: Ray, rec: HitRecord) -> bool {
        &&& color_wf(self.albedo)
        &&& hit_data_wf(rec.data)
    }

    open spec fn scatter_spec(&self, ray: Ray, rec: HitRecord, out: Option<ScatterRecord>) -> bool {
        match out {
            Some(sc) => {
                &&& sc.attenuation == self.albedo
                &&& sc.new_ray.origin == rec.data.pos
                &&& ray_wf(sc.new_ray)
                &&& exists|p: Vec3|
                    in_unit_ball(p) && sc.new_ray.dir == #[trigger] diffuse_dir(rec.data.n, p)
            },
            None => false,
        }
    }

    fn scatter(&self, ray: &Ray, rec: &HitRecord) -> (r: Option<ScatterRecord>) {
        let p = random_point_in_unit_sphere();
        let d0 = rec.data.n.plus(p);
        let dir = if d0.x == 0 && d0.y == 0 && d0.z == 0 {
            rec.data.n
        } else {
            d0
        };
        let out = ScatterRecord {
            new_ray: Ray { origin: rec.data.pos, dir },
            attenuation: self.albedo,
        };
        proof {
            assert(out.new_ray.dir == diffuse_dir(rec.data.n, p));
        }
        Some(out)
    }
}

/// A diffuse scatter never returns a zero direction: the sampled interior
/// point lies strictly inside the unit ball, so it can cancel the
/// (unit-length) normal only in the degenerate rounded case, where the
/// normal itself stands in — and a well-formed normal is nonzero.
pub proof fn lemma_diffuse_scatter_dir_nonzero(
    m: DiffuseMaterial,
    ray: Ray,
    rec: HitRecord,
    out: Option<ScatterRecord>,
)
    requires
        normal_ok(rec.data.n),
        m.scatter_spec(ray, rec, out),
    ensures
        out matches Some(sc) ==> sc.new_ray.dir != zero(),
{
    match out {
        Some(sc) => {
            let p = choose|p: Vec3|
                in_unit_ball(p) && sc.new_ray.dir == #[trigger] diffuse_dir(rec.data.n, p);
            if rec.data.n == zero() {
                lemma_fmul_zero(0);
                assert(sv_len_sq(zero()) == 0);
            }
            assert(rec.data.n != zero());
        },
        None => {},
    }
}

/// Metal with fuzz 0 reflects a ray arriving at normal incidence straight
/// back: when the incoming direction normalizes to the negated normal and
/// the normal is exactly unit length, the scattered direction is the
/// normal itself — the negated incoming unit direction.
pub proof fn lemma_metal_normal_incidence(
    m: MetalMaterial,
    ray: Ray,
    rec: HitRecord,
    out: Option<ScatterRecord>,
)
    requires
        m.fuzz == 0,
        normal_ok(rec.data.n),
        sv_len_sq(rec.data.n) == 65536,
        sv_unit(ray.dir) == Some(sv_neg(rec.data.n)),
        m.scatter_spec(ray, rec, out),
    ensures
        out matches Some(sc) && sc.new_ray.dir == rec.data.n,
{
    let n = rec.data.n;
    let u = sv_neg(n);
    assert(u.x == -n.x && u.y == -n.y && u.z == -n.z);

    // dot(u, n) == -|n|^2 == -1, exactly
    lemma_fmul_neg(n.x as int, n.x as int);
    lemma_fmul_neg(n.y as int, n.y as int);
    lemma_fmul_neg(n.z as int, n.z as int);
    assert(sv_dot(u, n) == -65536);

    // the reflected direction is u - 2*dot(u,n)*n == -n + 2n == n, exactly
    lemma_fmul_neg(131072, n.x as int);
    lemma_fmul_neg(131072, n.y as int);
    lemma_fmul_neg(131072, n.z as int);
    assert(fmul(131072, n.x as int) == 2 * n.x) by {
        assert(131072 * (n.x as int) == (2 * n.x) * 65536);
        lemma_tdiv_mul_exact(2 * n.x as int, 65536);
    }
    assert(fmul(131072, n.y as int) == 2 * n.y) by {
        assert(131072 * (n.y as int) == (2 * n.y) * 65536);
        lemma_tdiv_mul_exact(2 * n.y as int, 65536);
    }
    assert(fmul(131072, n.z as int) == 2 * n.z) by {
        assert(131072 * (n.z as int) == (2 * n.z) * 65536);
        lemma_tdiv_mul_exact(2 * n.z as int, 65536);
    }
    assert(sv_reflect(u, n) == n);
}

#[derive(Clone, Copy, Debug, PartialEq, Eq, Structural)]
pub struct MetalMaterial {
    pub albedo: Vec3,
    /// Roughness in [0, 1]: how far the mirror direction is perturbed.
    pub fuzz: i64,
}

/// What a fuzzy metal bounce yields for a given perturbation point `p`: a
/// perturbed direction pointing into the surface (or too short to
/// normalize) is absorbed, anything else leaves renormalized.
pub open spec fn metal_out(m: MetalMaterial, rec: HitRecord, refl: Vec3, p: Vec3, out: Option<
    ScatterRecord,
>) -> bool {
    let d = sv_plus(refl, sv_scale(m.fuzz as int, p));
    if sv_dot(d, rec.data.n) <= 0 {
        out is None
    } else {
        match sv_unit(d) {
            None => out is None,
            Some(ud) => {
                &&& out == Some(
                    ScatterRecord {
                        new_ray: Ray { origin: rec.data.pos, dir: ud },
                        attenuation: m.albedo,
                    },
                )
                &&& ray_wf(Ray { origin: rec.data.pos, dir: ud })
            },
        }
    }
}

impl Material for MetalMaterial {
    open spec fn scatter_req(&self, ray: Ray, rec: HitRecord) -> bool {
        &&& color_wf(self.albedo)
        &&& 0 <= self.fuzz <= 65536
        &&& hit_data_wf(rec.data)
        &&& ray_wf(ray)
    }

    open spec fn scatter_spec(&self, ray: Ray, rec: HitRecord, out: Option<ScatterRecord>) -> bool {
        match sv_unit(ray.dir) {
            None => out is None,
            Some(u) => {
                let refl = sv_reflect(u, rec.data.n);
                if self.fuzz == 0 {
                    &&& out == Some(
                        ScatterRecord {
                            new_ray: Ray { origin: rec.data.pos, dir: refl },
                            attenuation: self.albedo,
                        },
                    )
                    &&& ray_wf(Ray { origin: rec.data.pos, dir: refl })
                } else {
                    exists|p: Vec3|
                        in_unit_ball(p) && #[trigger] metal_out(*self, rec, refl, p, out)
                }
            },
        }
    }

    fn scatter(&self, ray: &Ray, rec: &HitRecord) -> (r: Option<ScatterRecord>) {
        let u = match ray.dir.unit() {
            None => {
                return None;
            },
            Some(u) => u,
        };
        let refl = u.reflect(rec.data.n);
        if self.fuzz == 0 {
            return Some(
                ScatterRecord {
                    new_ray: Ray { origin: rec.data.pos, dir: refl },
                    attenuation: self.albedo,
                },
            );
        }
        let p = random_point_in_unit_sphere();
        proof {
            lemma_fmul_bound(self.fuzz as int, p.x as int, 65536, 65536);
            lemma_fmul_bound(self.fuzz as int, p.y as int, 65536, 65536);
            lemma_fmul_bound(self.fuzz as int, p.z as int, 65536, 65536);
        }
        let fp = p.scale(self.fuzz);
        let d = refl.plus(fp);
        let dn: i64 = d.dot(rec.data.n);
        if dn <= 0 {
            proof {
                assert(in_unit_ball(p) && metal_out(*self, *rec, refl, p, None::<ScatterRecord>));
            }
            return None;
        }
        match d.unit() {
            None => {
                proof {
                    assert(in_unit_ball(p) && metal_out(
                        *self,
                        *rec,
                        refl,
                        p,
                        None::<ScatterRecord>,
                    ));
                }
                None
            },
            Some(ud) => {
                let out = ScatterRecord {
                    new_ray: Ray { origin: rec.data.pos, dir: ud },
                    attenuation: self.albedo,
                };
                proof {
                    assert(in_unit_ball(p) && metal_out(*self, *rec, refl, p, Some(out)));
                }
                Some(out)
            },
        }
    }
}

} // verus!

