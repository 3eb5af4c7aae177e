//! The material capability — how a ray scatters (or is absorbed) at a hit
//! — together with the injected source of randomness that diffuse and
//! fuzzy-metal scattering draw from.

use vstd::prelude::*;
use crate::vec3::{Vec3, sv_bounded, sv_len_sq};
use crate::ray::{Ray, ray_wf};
use crate::hit::HitRecord;

verus! {

/// Relies on rand::random: draws one value from the thread-local
/// generator. Nothing is promised of the value; callers state what holds
/// of every outcome.
pub assume_specification<T>[ rand::random::<T> ]() -> (r: T)
    where
        rand::distributions::Standard: rand::distributions::Distribution<T>,
;

/// A scattered continuation: the outgoing ray plus the per-channel
/// attenuation the bounce applies.
#[derive(Clone, Copy, Debug, PartialEq, Eq, Structural)]
pub struct ScatterRecord {
    pub new_ray: Ray,
    pub attenuation: Vec3,
}

/// A linear color: every channel within [0, 1] in fixed-point units.
pub open spec fn color_wf(c: Vec3) -> bool {
    &&& 0 <= c.x <= 65536
    &&& 0 <= c.y <= 65536
    &&& 0 <= c.z <= 65536
}

/// A point of the open unit ball, as the rejection sampler produces it.
pub open spec fn in_unit_ball(p: Vec3) -> bool {
    &&& sv_bounded(p, 65536)
    &&& sv_len_sq(p) < 65536
}

/// The material capability: produce the scattered result, or else the ray
/// is completely absorbed. Scattering may draw randomness, so its
/// contract is a relation over every outcome rather than an equation.
pub trait Material {
    /// Inputs under which this material's scatter is free of overflow.
    spec fn scatter_req(&self, ray: Ray, rec: HitRecord) -> bool;

    /// What holds of the outcome, whatever the random draws were.
    spec fn scatter_spec(&self, ray: Ray, rec: HitRecord, out: Option<ScatterRecord>) -> bool;

    fn scatter(&self, ray: &Ray, rec: &HitRecord) -> (r: Option<ScatterRecord>)
        requires
            self.scatter_req(*ray, *rec),
        ensures
            self.scatter_spec(*ray, *rec, r),
            (match r {
                Some(sc) => ray_wf(sc.new_ray) && color_wf(sc.attenuation),
                None => true,
            }),
    ;
}

/// One uniformly distributed fixed-point value in [0, 1).
fn random_unit_fp() -> (r: i64)
    ensures
        0 <= r < 65536,
{
    let x: u32 = rand::random::<u32>();
    (x % 65536) as i64
}

/// A random point of the open unit ball, by rejection from the cube
/// [-1,1)^3. A bounded number of draws keeps the sampler total; if every
/// draw lands outside the ball, a fixed interior point stands in.
pub fn random_point_in_unit_sphere() -> (p: Vec3)
    ensures
        in_unit_ball(p),
{
    let mut k: usize = 0;
    while k < 32
        invariant
            k <= 32,
        decreases 32 - k,
    {
        let a: i64 = 2 * random_unit_fp() - 65536;
        let b: i64 = 2 * random_unit_fp() - 65536;
        let c: i64 = 2 * random_unit_fp() - 65536;
        let q = Vec3 { x: a, y: b, z: c };
        let ls: i64 = q.dot(q);
        if ls < 65536 {
            return q;
        }
        k = k + 1;
    }
    let fallback = Vec3 { x: 32768, y: 0, z: 0 };
    proof {
        assert(sv_len_sq(fallback) == 16384);
    }
    fallback
}

} // verus!
