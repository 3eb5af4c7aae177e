//! The camera: maps normalized screen coordinates to a world-space ray
//! from a fixed origin through a fixed image plane.

use vstd::prelude::*;
use crate::fixed::lemma_fmul_bound;
use crate::vec3::{Vec3, zero, sv_bounded, sv_plus, sv_scale};
use crate::ray::{Ray, ray_wf};

verus! {

#[derive(Clone, Copy, Debug, PartialEq, Eq, Structural)]
pub struct Camera {
    pub origin: Vec3,
    pub left_down: Vec3,
    pub h: Vec3,
    pub v: Vec3,
}

/// A camera whose rays stay within the tracer's ray bounds.
pub open spec fn camera_wf(c: Camera) -> bool {
    &&& sv_bounded(c.origin, 0x2000000)
    &&& sv_bounded(c.left_down, 0x200000)
    &&& sv_bounded(c.h, 0x200000)
    &&& sv_bounded(c.v, 0x200000)
}

impl Camera {
    /// The fixed camera of this tracer: at the origin, looking down -z
    /// onto a 4x2 image plane one unit away.
    pub fn new() -> (c: Camera)
        ensures
            c.origin == zero(),
            c.left_down == (Vec3 { x: -131072i64, y: -65536i64, z: -65536i64 }),
            c.h == (Vec3 { x: 262144, y: 0, z: 0 }),
            c.v == (Vec3 { x: 0, y: 131072, z: 0 }),
            camera_wf(c),
    {
        Camera {
            origin: Vec3 { x: 0, y: 0, z: 0 },
            left_down: Vec3 { x: -131072, y: -65536, z: -65536 },
            h: Vec3 { x: 262144, y: 0, z: 0 },
            v: Vec3 { x: 0, y: 131072, z: 0 },
        }
    }

    /// The ray through normalized screen coordinates (u, v).
    pub open spec fn ray_spec(self, u: int, v: int) -> Ray {
        Ray {
            origin: self.origin,
            dir: sv_plus(sv_plus(self.left_down, sv_scale(u, self.h)), sv_scale(v, self.v)),
        }
    }

    pub fn ray(&self, u: i64, v: i64) -> (r: Ray)
        requires
            camera_wf(*self),
            0 <= u <= 65536,
            0 <= v <= 65536,
        ensures
            r == self.ray_spec(u as int, v as int),
            ray_wf(r),
    {
        proof {
            lemma_fmul_bound(u as int, self.h.x as int, 65536, 0x200000);
            lemma_fmul_bound(u as int, self.h.y as int, 65536, 0x200000);
            lemma_fmul_bound(u as int, self.h.z as int, 65536, 0x200000);
            lemma_fmul_bound(v as int, self.v.x as int, 65536, 0x200000);
            lemma_fmul_bound(v as int, self.v.y as int, 65536, 0x200000);
            lemma_fmul_bound(v as int, self.v.z as int, 65536, 0x200000);
        }
        let du = self.h.scale(u);
        let dv = self.v.scale(v);
        Ray { origin: self.origin, dir: self.left_down.plus(du).plus(dv) }
    }
}

} // verus!
