//! Rays: an origin point and an (unnormalized) direction.

use vstd::prelude::*;
use crate::vec3::{Vec3, sv_bounded, sv_plus, sv_scale, sv_ok};
use crate::fixed::lemma_fmul_bound;

verus! {

#[derive(Clone, Copy, Debug, PartialEq, Eq, Structural)]
pub struct Ray {
    pub origin: Vec3,
    /// Not normalized.
    pub dir: Vec3,
}

/// Rays the tracer works with: the origin stays within the positional
/// bound that hits guarantee, the direction within the scene bound.
pub open spec fn ray_wf(r: Ray) -> bool {
    &&& sv_bounded(r.origin, 0x2000000)
    &&& sv_bounded(r.dir, 0x800000)
}

/// The point the ray reaches at parameter t: origin + t*dir.
pub open spec fn ray_at(r: Ray, t: int) -> Vec3 {
    sv_plus(r.origin, sv_scale(t, r.dir))
}

impl Ray {
    /// Ray's expression that returns a point.
    pub fn expr(&self, t: i64) -> (p: Vec3)
        requires
            ray_wf(*self),
            0 <= t <= 0x40000000,
        ensures
            p == ray_at(*self, t as int),
            sv_bounded(p, 0x2002000000),
    {
        proof {
            lemma_fmul_bound(t as int, self.dir.x as int, 0x40000000, 0x800000);
            lemma_fmul_bound(t as int, self.dir.y as int, 0x40000000, 0x800000);
            lemma_fmul_bound(t as int, self.dir.z as int, 0x40000000, 0x800000);
        }
        let s = self.dir.scale(t);
        self.origin.plus(s)
    }
}

} // verus!
