//! The recursive light-transport evaluator and the final display-color
//! mapping.

use vstd::prelude::*;
use crate::fixed::{fmul, fp_mul, lemma_fmul_bound, lemma_fmul_nonneg, lemma_fmul_zero, lemma_tdiv_scale_exact};
use vstd::arithmetic::div_mod::{lemma_div_is_ordered, lemma_div_pos_is_pos};
use crate::vec3::{Vec3, zero, sv_unit};
use crate::ray::{Ray, ray_wf};
use crate::material::{Material, ScatterRecord, color_wf};
use crate::world::{World, world_wf, world_hit_spec, renderable_wf};

verus! {

/// Lower end of the hit range the evaluator queries: about 0.001, which
/// suppresses self-intersection at a scattered ray's origin.
pub const HIT_EPS: i64 = 65;

/// Upper end of the hit range: the largest parameter the fixed-point
/// geometry supports (16384 in real units), standing in for infinity.
pub const T_LIMIT: i64 = 0x40000000;

/// A display color: three 8-bit channels.
#[derive(Debug, Clone, Default, Copy, PartialEq, Eq, Structural)]
pub struct Color8u {
    pub r: u8,
    pub g: u8,
    pub b: u8,
}

/// The fixed linear-to-display mapping: clamp the channel into [0, 1],
/// then floor(255.9 * x) — written over fixed-point units as
/// (2559 * x) / (10 * 65536).
pub open spec fn display_channel(x: int) -> int {
    let c = if x < 0 {
        0
    } else if x > 65536 {
        65536
    } else {
        x
    };
    (2559 * c) / 655360
}

fn channel_to_display(x: i64) -> (r: u8)
    ensures
        r as int == display_channel(x as int),
{
    let c: u64 = if x < 0 {
        0
    } else if x > 65536 {
        65536
    } else {
        x as u64
    };
    let v: u64 = (2559 * c) / 655360;
    proof {
        lemma_div_is_ordered(2559 * c as int, 2559int * 65536, 655360);
        lemma_div_pos_is_pos(2559 * c as int, 655360);
    }
    v as u8
}

impl Color8u {
    /// Maps a linear color (fixed-point channels, nominally in [0, 1],
    /// clamped if outside) to its display value.
    pub fn from_normalized(xs: Vec3) -> (c: Color8u)
        ensures
            c.r as int == display_channel(xs.x as int),
            c.g as int == display_channel(xs.y as int),
            c.b as int == display_channel(xs.z as int),
    {
        Color8u {
            r: channel_to_display(xs.x),
            g: channel_to_display(xs.y),
            b: channel_to_display(xs.z),
        }
    }
}

/// Componentwise product of an attenuation and a color.
pub open spec fn attenuated(a: Vec3, c: Vec3) -> Vec3 {
    Vec3 {
        x: fmul(a.x as int, c.x as int) as i64,
        y: fmul(a.y as int, c.y as int) as i64,
        z: fmul(a.z as int, c.z as int) as i64,
    }
}

fn attenuate(a: Vec3, c: Vec3) -> (r: Vec3)
    requires
        color_wf(a),
        color_wf(c),
    ensures
        r == attenuated(a, c),
        color_wf(r),
{
    proof {
        lemma_fmul_bound(a.x as int, c.x as int, 65536, 65536);
        lemma_fmul_bound(a.y as int, c.y as int, 65536, 65536);
        lemma_fmul_bound(a.z as int, c.z as int, 65536, 65536);
        lemma_fmul_nonneg(a.x as int, c.x as int);
        lemma_fmul_nonneg(a.y as int, c.y as int);
        lemma_fmul_nonneg(a.z as int, c.z as int);
    }
    Vec3 { x: fp_mul(a.x, c.x), y: fp_mul(a.y, c.y), z: fp_mul(a.z, c.z) }
}

/// One channel of the background gradient: (1-t)*white + t*sky, exact in
/// fixed point because multiplying by a whole unit is exact.
pub open spec fn bg_channel(t: int, sky: int) -> int {
    65536 - t + fmul(t, sky)
}

/// The background: a vertical gradient from white (down) to sky blue
/// (up), driven by the y component of the normalized direction; a
/// direction too degenerate to normalize yields black.
pub open spec fn background_spec(ray: Ray) -> Vec3 {
    match sv_unit(ray.dir) {
        None => zero(),
        Some(u) => {
            let s = u.y + 65536;
            let sc = if s < 0 {
                0
            } else if s > 131072 {
                131072
            } else {
                s
            };
            let t = sc / 2;
            Vec3 {
                x: bg_channel(t, 32768) as i64,
                y: bg_channel(t, 45875) as i64,
                z: bg_channel(t, 65536) as i64,
            }
        },
    }
}

fn background(ray: &Ray) -> (c: Vec3)
    requires
        ray_wf(*ray),
    ensures
        c == background_spec(*ray),
        color_wf(c),
{
    match ray.dir.unit() {
        None => Vec3 { x: 0, y: 0, z: 0 },
        Some(u) => {
            let s: i64 = u.y + 65536;
            let sc: u64 = if s < 0 {
                0
            } else if s > 131072 {
                131072
            } else {
                s as u64
            };
            let t: i64 = (sc / 2) as i64;
            proof {
                lemma_fmul_bound(t as int, 32768, 65536, 32768);
                lemma_fmul_bound(t as int, 45875, 65536, 45875);
                lemma_fmul_bound(t as int, 65536, 65536, 65536);
                lemma_fmul_nonneg(t as int, 32768);
                lemma_fmul_nonneg(t as int, 45875);
                lemma_fmul_nonneg(t as int, 65536);
                lemma_tdiv_scale_exact(t as int);
            }
            Vec3 {
                x: 65536 - t + fp_mul(t, 32768),
                y: 65536 - t + fp_mul(t, 45875),
                z: 65536 - t + fp_mul(t, 65536),
            }
        },
    }
}

/// The background gradient hits its endpoints exactly: a direction that
/// normalizes to straight down yields pure white, one that normalizes to
/// straight up yields exactly the sky color (0.5, 0.7, 1.0 in fixed
/// point).
pub proof fn lemma_background_extremes(ray: Ray)
    ensures
        (match sv_unit(ray.dir) {
            Some(u) => {
                &&& (u.y == -65536 ==> background_spec(ray) == (Vec3 {
                    x: 65536i64,
                    y: 65536i64,
                    z: 65536i64,
                }))
                &&& (u.y == 65536 ==> background_spec(ray) == (Vec3 {
                    x: 32768i64,
                    y: 45875i64,
                    z: 65536i64,
                }))
            },
            None => true,
        }),
{
    match sv_unit(ray.dir) {
        Some(u) => {
            if u.y == -65536 {
                lemma_fmul_zero(32768);
                lemma_fmul_zero(45875);
                lemma_fmul_zero(65536);
            }
            if u.y == 65536 {
                lemma_tdiv_scale_exact(32768);
                lemma_tdiv_scale_exact(45875);
                lemma_tdiv_scale_exact(65536);
            }
        },
        None => {},
    }
}

/// Once the depth bound is exhausted, the evaluator's estimate is black —
/// for every scene and every ray, mirrored scenes included: recursion
/// cannot proceed past the bound.
pub proof fn lemma_depth_exhausted_black(w: World, ray: Ray, c: Vec3)
    requires
        color_rel(w, ray, 0, c),
    ensures
        c == zero(),
{
}

/// The light-transport relation: what radiance estimates the recursive
/// evaluator may return for a ray, given that scattering draws randomness.
/// At depth zero the estimate is black; on a miss it is exactly the
/// background; on a hit it is black (absorption) or the scattered
/// estimate attenuated by the material's color, for some scatter outcome
/// the struck entry's material allows.
pub open spec fn color_rel(w: World, ray: Ray, depth: u32, c: Vec3) -> bool
    decreases depth,
{
    if depth == 0 {
        c == zero()
    } else {
        match world_hit_spec(w, ray, 65, 0x40000000) {
            None => c == background_spec(ray),
            Some(rec) => {
                &&& rec.obj_ix < w.objs@.len()
                &&& {
                    ||| (w.objs@[rec.obj_ix as int].material.scatter_spec(ray, rec, None) && c
                        == zero())
                    ||| exists|sc: ScatterRecord, c2: Vec3|
                        #![trigger w.objs@[rec.obj_ix as int].material.scatter_spec(ray, rec, Some(sc)), attenuated(sc.attenuation, c2)]
                        {
                            &&& w.objs@[rec.obj_ix as int].material.scatter_spec(
                                ray,
                                rec,
                                Some(sc),
                            )
                            &&& color_rel(w, sc.new_ray, (depth - 1) as u32, c2)
                            &&& c == attenuated(sc.attenuation, c2)
                        }
                }
            },
        }
    }
}

/// Recursively samples the color along one ray: find the nearest hit, ask
/// its material to scatter, attenuate the recursive estimate; on a miss,
/// the background; at the depth bound, black.
pub fn color(ray: &Ray, world: &World, depth: u32) -> (c: Vec3)
    requires
        ray_wf(*ray),
        world_wf(*world),
    ensures
        color_rel(*world, *ray, depth, c),
        color_wf(c),
    decreases depth,
{
    if depth == 0 {
        return Vec3 { x: 0, y: 0, z: 0 };
    }

    // if hit, sample color from the renderable
    match world.hit(ray, HIT_EPS, T_LIMIT) {
        Some(hit) => {
            proof {
                assert(renderable_wf(world.objs@[hit.obj_ix as int]));
            }
            let obj = &world.objs[hit.obj_ix];
            match obj.material.scatter(ray, &hit) {
                Some(scatter) => {
                    // traverse the scattered ray
                    let rec_c = color(&scatter.new_ray, world, depth - 1);
                    let out = attenuate(scatter.attenuation, rec_c);
                    proof {
                        assert(world.objs@[hit.obj_ix as int].material.scatter_spec(
                            *ray,
                            hit,
                            Some(scatter),
                        ));
                        assert(color_rel(*world, scatter.new_ray, (depth - 1) as u32, rec_c));
                        assert(out == attenuated(scatter.attenuation, rec_c));
                        assert(exists|sc: ScatterRecord, c2: Vec3|
                            #![trigger world.objs@[hit.obj_ix as int].material.scatter_spec(*ray, hit, Some(sc)), attenuated(sc.attenuation, c2)]
                            {
                                &&& world.objs@[hit.obj_ix as int].material.scatter_spec(
                                    *ray,
                                    hit,
                                    Some(sc),
                                )
                                &&& color_rel(*world, sc.new_ray, (depth - 1) as u32, c2)
                                &&& out == attenuated(sc.attenuation, c2)
                            });
                    }
                    out
                },
                None => {
                    let out = Vec3 { x: 0, y: 0, z: 0 };
                    proof {
                        assert(world.objs@[hit.obj_ix as int].material.scatter_spec(
                            *ray,
                            hit,
                            None::<ScatterRecord>,
                        ));
                        assert(out == zero());
                    }
                    out
                },
            }
        },
        None => background(ray),
    }
}

} // verus!
