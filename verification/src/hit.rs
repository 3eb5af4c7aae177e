//! The surface capability: anything a ray can intersect within a
//! parametric range, and the records such an intersection produces.

use vstd::prelude::*;
use crate::vec3::{Vec3, sv_bounded, sv_len_sq};
use crate::ray::Ray;

verus! {

/// Outcome of one surface intersection: the ray parameter, the hit point
/// and the outward surface normal there.
#[derive(Clone, Copy, Debug, PartialEq, Eq, Structural)]
pub struct HitData {
    /// Value to retrieve the hit point from the ray.
    pub t: i64,
    /// Hit point.
    pub pos: Vec3,
    /// Outward unit normal.
    pub n: Vec3,
}

/// A hit found by the scene aggregate, carrying which entry was struck.
#[derive(Clone, Copy, Debug, PartialEq, Eq, Structural)]
pub struct HitRecord {
    /// Which object the ray hit.
    pub obj_ix: usize,
    pub data: HitData,
}

/// Unit length up to the fixed-point tolerance the hit tests enforce
/// (squared length within 1/64 of one), and small enough for every
/// later vector operation.
pub open spec fn normal_ok(n: Vec3) -> bool {
    &&& sv_bounded(n, 131072)
    &&& 64512 <= sv_len_sq(n) <= 66560
}

/// What every hit record handed out by a surface satisfies: a forward
/// parameter, a bounded hit point, and a unit-length outward normal.
pub open spec fn hit_data_wf(h: HitData) -> bool {
    &&& 0 <= h.t
    &&& sv_bounded(h.pos, 0x2000000)
    &&& normal_ok(h.n)
}

/// The surface capability: a pure intersection test against a parametric
/// range `[t_min, t_max]` (inclusive at both ends).
pub trait Hit {
    /// Inputs under which this surface's test is free of overflow.
    spec fn hit_req(&self, ray: Ray, t_min: i64, t_max: i64) -> bool;

    /// The exact mathematical outcome of the test.
    spec fn hit_spec(&self, ray: Ray, t_min: i64, t_max: i64) -> Option<HitData>;

    fn hit(&self, ray: &Ray, t_min: i64, t_max: i64) -> (r: Option<HitData>)
        requires
            self.hit_req(*ray, t_min, t_max),
        ensures
            r == self.hit_spec(*ray, t_min, t_max),
            (match r {
                Some(h) => hit_data_wf(h) && t_min <= h.t <= t_max,
                None => true,
            }),
    ;
}

} // verus!
