//! Three-component vectors over fixed-point scalars. Points, directions
//! and linear colors are all carried as `Vec3` values; the spec functions
//! `sv_*` give every executable operation an exact mathematical meaning.

use vstd::prelude::*;
use crate::fixed::{fmul, fdiv, fsqrt, fp_mul, fp_div, fp_sqrt};
use crate::fixed::{lemma_fmul_bound, lemma_fmul_self_nonneg, lemma_fdiv_bounds, lemma_sqrt_floor_bounds};

verus! {

/// A vector of three fixed-point coordinates (SCALE units to one).
#[derive(Clone, Copy, Debug, PartialEq, Eq, Structural)]
pub struct Vec3 {
    pub x: i64,
    pub y: i64,
    pub z: i64,
}

/// Magnitude bound under which every componentwise operation below is
/// free of overflow (2^38 units, about 4 million in real terms).
pub open spec fn sv_ok(v: Vec3) -> bool {
    sv_bounded(v, 0x4000000000)
}

pub open spec fn sv_bounded(v: Vec3, b: int) -> bool {
    &&& -b <= v.x <= b
    &&& -b <= v.y <= b
    &&& -b <= v.z <= b
}

pub open spec fn zero() -> Vec3 {
    Vec3 { x: 0, y: 0, z: 0 }
}

pub open spec fn sv_plus(u: Vec3, v: Vec3) -> Vec3 {
    Vec3 { x: (u.x + v.x) as i64, y: (u.y + v.y) as i64, z: (u.z + v.z) as i64 }
}

pub open spec fn sv_minus(u: Vec3, v: Vec3) -> Vec3 {
    Vec3 { x: (u.x - v.x) as i64, y: (u.y - v.y) as i64, z: (u.z - v.z) as i64 }
}

pub open spec fn sv_neg(v: Vec3) -> Vec3 {
    Vec3 { x: (-v.x) as i64, y: (-v.y) as i64, z: (-v.z) as i64 }
}

pub open spec fn sv_scale(t: int, v: Vec3) -> Vec3 {
    Vec3 {
        x: fmul(t, v.x as int) as i64,
        y: fmul(t, v.y as int) as i64,
        z: fmul(t, v.z as int) as i64,
    }
}

pub open spec fn sv_div(v: Vec3, d: int) -> Vec3 {
    Vec3 {
        x: fdiv(v.x as int, d) as i64,
        y: fdiv(v.y as int, d) as i64,
        z: fdiv(v.z as int, d) as i64,
    }
}

pub open spec fn sv_dot(u: Vec3, v: Vec3) -> int {
    fmul(u.x as int, v.x as int) + fmul(u.y as int, v.y as int) + fmul(u.z as int, v.z as int)
}

pub open spec fn sv_len_sq(v: Vec3) -> int {
    sv_dot(v, v)
}

/// Normalization with the two guards the executable code applies: a zero
/// squared length has no direction, and a result outside twice the unit
/// bound is rejected rather than propagated.
pub open spec fn sv_unit(v: Vec3) -> Option<Vec3> {
    let ls = sv_len_sq(v);
    if ls <= 0 {
        None
    } else {
        let u = sv_div(v, fsqrt(ls));
        if sv_bounded(u, 131072) {
            Some(u)
        } else {
            None
        }
    }
}

/// Mirror reflection of `u` about the normal `n`: u - 2*dot(u,n)*n.
pub open spec fn sv_reflect(u: Vec3, n: Vec3) -> Vec3 {
    sv_minus(u, sv_scale(2 * sv_dot(u, n), n))
}

pub proof fn lemma_sv_dot_bound(u: Vec3, v: Vec3, m: int)
    requires
        sv_bounded(u, m),
        sv_bounded(v, m),
        0 <= m,
    ensures
        -(3 * ((m * m) / 65536)) <= sv_dot(u, v) <= 3 * ((m * m) / 65536),
{
    lemma_fmul_bound(u.x as int, v.x as int, m, m);
    lemma_fmul_bound(u.y as int, v.y as int, m, m);
    lemma_fmul_bound(u.z as int, v.z as int, m, m);
}

pub proof fn lemma_sv_len_sq_nonneg(v: Vec3)
    ensures
        0 <= sv_len_sq(v),
{
    lemma_fmul_self_nonneg(v.x as int);
    lemma_fmul_self_nonneg(v.y as int);
    lemma_fmul_self_nonneg(v.z as int);
}

impl Vec3 {
    pub fn plus(self, o: Vec3) -> (r: Vec3)
        requires
            sv_ok(self),
            sv_ok(o),
        ensures
            r == sv_plus(self, o),
            r.x == self.x + o.x,
            r.y == self.y + o.y,
            r.z == self.z + o.z,
    {
        Vec3 { x: self.x + o.x, y: self.y + o.y, z: self.z + o.z }
    }

    pub fn minus(self, o: Vec3) -> (r: Vec3)
        requires
            sv_ok(self),
            sv_ok(o),
        ensures
            r == sv_minus(self, o),
            r.x == self.x - o.x,
            r.y == self.y - o.y,
            r.z == self.z - o.z,
    {
        Vec3 { x: self.x - o.x, y: self.y - o.y, z: self.z - o.z }
    }

    pub fn scale(self, t: i64) -> (r: Vec3)
        requires
            sv_ok(self),
            -0x4000000000 <= t <= 0x4000000000,
        ensures
            r == sv_scale(t as int, self),
            r.x == fmul(t as int, self.x as int),
            r.y == fmul(t as int, self.y as int),
            r.z == fmul(t as int, self.z as int),
    {
        proof {
            lemma_fmul_bound(t as int, self.x as int, 0x4000000000, 0x4000000000);
            lemma_fmul_bound(t as int, self.y as int, 0x4000000000, 0x4000000000);
            lemma_fmul_bound(t as int, self.z as int, 0x4000000000, 0x4000000000);
        }
        Vec3 { x: fp_mul(t, self.x), y: fp_mul(t, self.y), z: fp_mul(t, self.z) }
    }

    pub fn divided(self, d: i64) -> (r: Vec3)
        requires
            sv_ok(self),
            0 < d,
        ensures
            r == sv_div(self, d as int),
            r.x == fdiv(self.x as int, d as int),
            r.y == fdiv(self.y as int, d as int),
            r.z == fdiv(self.z as int, d as int),
    {
        proof {
            lemma_fdiv_bounds(self.x as int, d as int, 0x4000000000);
            lemma_fdiv_bounds(self.y as int, d as int, 0x4000000000);
            lemma_fdiv_bounds(self.z as int, d as int, 0x4000000000);
        }
        Vec3 { x: fp_div(self.x, d), y: fp_div(self.y, d), z: fp_div(self.z, d) }
    }

    pub fn dot(self, o: Vec3) -> (r: i64)
        requires
            sv_ok(self),
            sv_ok(o),
        ensures
            r as int == sv_dot(self, o),
    {
        proof {
            lemma_fmul_bound(self.x as int, o.x as int, 0x4000000000, 0x4000000000);
            lemma_fmul_bound(self.y as int, o.y as int, 0x4000000000, 0x4000000000);
            lemma_fmul_bound(self.z as int, o.z as int, 0x4000000000, 0x4000000000);
        }
        fp_mul(self.x, o.x) + fp_mul(self.y, o.y) + fp_mul(self.z, o.z)
    }

    pub fn bounded_by(self, b: i64) -> (r: bool)
        requires
            0 <= b,
        ensures
            r == sv_bounded(self, b as int),
    {
        -b <= self.x && self.x <= b && -b <= self.y && self.y <= b && -b <= self.z && self.z
            <= b
    }

    /// The unit-length direction of `self`, or `None` when the vector is
    /// too short to carry one.
    pub fn unit(self) -> (r: Option<Vec3>)
        requires
            sv_ok(self),
        ensures
            r == sv_unit(self),
            (match r {
                Some(u) => sv_bounded(u, 131072),
                None => true,
            }),
    {
        let ls: i64 = self.dot(self);
        if ls <= 0 {
            return None;
        }
        let l: i64 = fp_sqrt(ls);
        proof {
            lemma_sqrt_floor_bounds((ls as int * 65536) as nat);
            if fsqrt(ls as int) == 0 {
                assert((0nat + 1) * (0nat + 1) == 1) by (nonlinear_arith);
            }
        }
        let u = self.divided(l);
        if u.bounded_by(131072) {
            Some(u)
        } else {
            None
        }
    }

    /// Mirror reflection of `self` (a near-unit direction) about `n`.
    pub fn reflect(self, n: Vec3) -> (r: Vec3)
        requires
            sv_bounded(self, 131072),
            sv_bounded(n, 131072),
        ensures
            r == sv_reflect(self, n),
            sv_bounded(r, 3276800),
    {
        proof {
            lemma_sv_dot_bound(self, n, 131072);
        }
        let d: i64 = self.dot(n);
        let s: i64 = 2 * d;
        proof {
            lemma_fmul_bound(s as int, n.x as int, 1572864, 131072);
            lemma_fmul_bound(s as int, n.y as int, 1572864, 131072);
            lemma_fmul_bound(s as int, n.z as int, 1572864, 131072);
        }
        Vec3 { x: self.x - fp_mul(s, n.x), y: self.y - fp_mul(s, n.y), z: self.z - fp_mul(s, n.z) }
    }
}

} // verus!
