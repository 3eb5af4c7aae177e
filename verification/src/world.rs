//! The scene aggregate: an ordered collection of renderable entries, each
//! pairing a surface with a material under a stable index, and the
//! nearest-hit query across all of them.

use vstd::prelude::*;
use crate::vec3::Vec3;
use crate::ray::{Ray, ray_wf};
use crate::hit::{Hit, HitData, HitRecord, hit_data_wf};
use crate::material::{Material, ScatterRecord, color_wf};
use crate::trace::{Sphere, DiffuseMaterial, MetalMaterial, sphere_wf, sphere_hit_spec, lemma_sphere_hit_in_range, lemma_sphere_hit_shrink, lemma_sphere_hit_grow, lemma_sphere_hit_none_shrink};

verus! {

/// The closed set of surface kinds a scene can hold.
#[derive(Clone, Copy, Debug, PartialEq)]
pub enum Surface {
    Sphere(Sphere),
}

pub open spec fn surface_wf(s: Surface) -> bool {
    match s {
        Surface::Sphere(sp) => sphere_wf(sp),
    }
}

impl Surface {
    /// Scene-construction validation: a malformed surface (zero or
    /// negative radius, out-of-bounds center) is a configuration error to
    /// reject eagerly, not a runtime fault.
    pub fn is_wf(&self) -> (r: bool)
        ensures
            r == surface_wf(*self),
    {
        match self {
            Surface::Sphere(s) => {
                s.center.bounded_by(0x800000) && 0 < s.radius && s.radius <= 0x800000
            },
        }
    }
}

impl Hit for Surface {
    open spec fn hit_req(&self, ray: Ray, t_min: i64, t_max: i64) -> bool {
        match *self {
            Surface::Sphere(s) => s.hit_req(ray, t_min, t_max),
        }
    }

    open spec fn hit_spec(&self, ray: Ray, t_min: i64, t_max: i64) -> Option<HitData> {
        match *self {
            Surface::Sphere(s) => sphere_hit_spec(s, ray, t_min, t_max),
        }
    }

    fn hit(&self, ray: &Ray, t_min: i64, t_max: i64) -> (r: Option<HitData>) {
        match self {
            Surface::Sphere(s) => s.hit(ray, t_min, t_max),
        }
    }
}

/// The closed set of material kinds a scene can hold.
#[derive(Clone, Copy, Debug, PartialEq)]
pub enum MaterialKind {
    Diffuse(DiffuseMaterial),
    Metal(MetalMaterial),
}

pub open spec fn material_wf(m: MaterialKind) -> bool {
    match m {
        MaterialKind::Diffuse(d) => color_wf(d.albedo),
        MaterialKind::Metal(mm) => color_wf(mm.albedo) && 0 <= mm.fuzz <= 65536,
    }
}

fn color_in_range(c: Vec3) -> (r: bool)
    ensures
        r == color_wf(c),
{
    0 <= c.x && c.x <= 65536 && 0 <= c.y && c.y <= 65536 && 0 <= c.z && c.z <= 65536
}

impl MaterialKind {
    /// Scene-construction validation: albedo channels must lie in [0, 1]
    /// and a metal's fuzz coefficient in [0, 1].
    pub fn is_wf(&self) -> (r: bool)
        ensures
            r == material_wf(*self),
    {
        match self {
            MaterialKind::Diffuse(d) => color_in_range(d.albedo),
            MaterialKind::Metal(m) => color_in_range(m.albedo) && 0 <= m.fuzz && m.fuzz <= 65536,
        }
    }
}

impl Material for MaterialKind {
    open spec fn scatter_req(&self, ray: Ray, rec: HitRecord) -> bool {
        match *self {
            MaterialKind::Diffuse(d) => d.scatter_req(ray, rec),
            MaterialKind::Metal(m) => m.scatter_req(ray, rec),
        }
    }

    open spec fn scatter_spec(&self, ray: Ray, rec: HitRecord, out: Option<ScatterRecord>) -> bool {
        match *self {
            MaterialKind::Diffuse(d) => d.scatter_spec(ray, rec, out),
            MaterialKind::Metal(m) => m.scatter_spec(ray, rec, out),
        }
    }

    fn scatter(&self, ray: &Ray, rec: &HitRecord) -> (r: Option<ScatterRecord>) {
        match self {
            MaterialKind::Diffuse(d) => d.scatter(ray, rec),
            MaterialKind::Metal(m) => m.scatter(ray, rec),
        }
    }
}

/// One scene entry: a surface, its material, and its stable index.
#[derive(Clone, Copy, Debug, PartialEq)]
pub struct Renderable {
    pub ix: usize,
    pub surface: Surface,
    pub material: MaterialKind,
}

pub open spec fn renderable_wf(r: Renderable) -> bool {
    &&& surface_wf(r.surface)
    &&& material_wf(r.material)
}

/// What the entry's surface reports, tagged with the entry's index.
pub open spec fn renderable_hit_spec(rd: Renderable, ray: Ray, t_min: i64, t_max: i64) -> Option<
    HitRecord,
> {
    match rd.surface.hit_spec(ray, t_min, t_max) {
        Some(data) => Some(HitRecord { obj_ix: rd.ix, data }),
        None => None,
    }
}

impl Renderable {
    /// Called by the scene aggregate.
    pub fn hit(&self, ray: &Ray, t_min: i64, t_max: i64) -> (r: Option<HitRecord>)
        requires
            self.surface.hit_req(*ray, t_min, t_max),
        ensures
            r == renderable_hit_spec(*self, *ray, t_min, t_max),
            (match r {
                Some(hr) => hr.obj_ix == self.ix && hit_data_wf(hr.data) && t_min <= hr.data.t
                    <= t_max,
                None => true,
            }),
    {
        match self.surface.hit(ray, t_min, t_max) {
            Some(data) => Some(HitRecord { obj_ix: self.ix, data }),
            None => None,
        }
    }
}

pub struct World {
    pub objs: Vec<Renderable>,
}

/// A well-formed scene: every entry is well formed and carries its own
/// position as its stable index.
pub open spec fn world_wf(w: World) -> bool {
    forall|i: int|
        0 <= i < w.objs@.len() ==> renderable_wf(#[trigger] w.objs@[i]) && w.objs@[i].ix == i
}

/// The nearest-hit fold: walk the entries from position `i` with the best
/// record so far and its shrinking upper bound; a later entry replaces the
/// best one only with a strictly smaller t, so the earliest entry wins
/// exact ties.
pub open spec fn world_hit_loop(
    objs: Seq<Renderable>,
    ray: Ray,
    t_min: i64,
    cur_max: i64,
    best: Option<HitRecord>,
    i: int,
) -> Option<HitRecord>
    decreases objs.len() - i,
{
    if i < 0 || i >= objs.len() {
        best
    } else {
        match renderable_hit_spec(objs[i], ray, t_min, cur_max) {
            Some(hr) => {
                let replace = match best {
                    None => true,
                    Some(b) => hr.data.t < b.data.t,
                };
                if replace {
                    world_hit_loop(objs, ray, t_min, hr.data.t, Some(hr), i + 1)
                } else {
                    world_hit_loop(objs, ray, t_min, cur_max, best, i + 1)
                }
            },
            None => world_hit_loop(objs, ray, t_min, cur_max, best, i + 1),
        }
    }
}

/// The nearest hit across the whole scene within [t_min, t_max].
pub open spec fn world_hit_spec(w: World, ray: Ray, t_min: i64, t_max: i64) -> Option<HitRecord> {
    world_hit_loop(w.objs@, ray, t_min, t_max, None, 0)
}

/// What an entry reports is range-filtered, never range-dependent:
/// shrinking the upper bound keeps a reported hit exactly when its
/// parameter still fits.
pub proof fn lemma_renderable_hit_shrink(
    rd: Renderable,
    ray: Ray,
    t_min: i64,
    t_max: i64,
    t_max2: i64,
    hr: HitRecord,
)
    requires
        renderable_hit_spec(rd, ray, t_min, t_max) == Some(hr),
        t_max2 <= t_max,
    ensures
        renderable_hit_spec(rd, ray, t_min, t_max2) == (if hr.data.t <= t_max2 {
            Some(hr)
        } else {
            None::<HitRecord>
        }),
        t_min <= hr.data.t <= t_max,
{
    match rd.surface {
        Surface::Sphere(s) => {
            let h = rd.surface.hit_spec(ray, t_min, t_max)->Some_0;
            lemma_sphere_hit_shrink(s, ray, t_min, t_max, t_max2, h);
            lemma_sphere_hit_in_range(s, ray, t_min, t_max, h);
        },
    }
}

/// Widening the upper bound keeps whatever hit an entry reported.
pub proof fn lemma_renderable_hit_grow(
    rd: Renderable,
    ray: Ray,
    t_min: i64,
    t_max: i64,
    t_max2: i64,
    hr: HitRecord,
)
    requires
        renderable_hit_spec(rd, ray, t_min, t_max) == Some(hr),
        t_max <= t_max2,
    ensures
        renderable_hit_spec(rd, ray, t_min, t_max2) == Some(hr),
{
    match rd.surface {
        Surface::Sphere(s) => {
            let h = rd.surface.hit_spec(ray, t_min, t_max)->Some_0;
            lemma_sphere_hit_grow(s, ray, t_min, t_max, t_max2, h);
        },
    }
}

/// An entry that reports no hit on a range reports none on a smaller one.
pub proof fn lemma_renderable_hit_none_shrink(
    rd: Renderable,
    ray: Ray,
    t_min: i64,
    t_max: i64,
    t_max2: i64,
)
    requires
        renderable_hit_spec(rd, ray, t_min, t_max) is None,
        t_max2 <= t_max,
    ensures
        renderable_hit_spec(rd, ray, t_min, t_max2) is None,
{
    match rd.surface {
        Surface::Sphere(s) => {
            lemma_sphere_hit_none_shrink(s, ray, t_min, t_max, t_max2);
        },
    }
}

/// The induction behind nearest-hit minimality: continuing the fold from
/// position `i` never returns a worse hit than the best so far, and beats
/// every hit the remaining entries report within the current bound.
proof fn lemma_world_hit_loop_minimal(
    objs: Seq<Renderable>,
    ray: Ray,
    t_min: i64,
    cur_max: i64,
    best: Option<HitRecord>,
    i: int,
)
    requires
        0 <= i <= objs.len(),
        (match best {
            Some(b) => b.data.t == cur_max,
            None => true,
        }),
    ensures
        (match best {
            Some(b) => world_hit_loop(objs, ray, t_min, cur_max, best, i) matches Some(r)
                && r.data.t <= b.data.t,
            None => true,
        }),
        forall|j: int|
            i <= j < objs.len() ==> ((#[trigger] renderable_hit_spec(objs[j], ray, t_min, cur_max))
                matches Some(h) ==> (world_hit_loop(objs, ray, t_min, cur_max, best, i)
                matches Some(r) && r.data.t <= h.data.t)),
    decreases objs.len() - i,
{
    if i < objs.len() {
        match renderable_hit_spec(objs[i], ray, t_min, cur_max) {
            Some(hr) => {
                lemma_renderable_hit_shrink(objs[i], ray, t_min, cur_max, cur_max, hr);
                let replace = match best {
                    None => true,
                    Some(b) => hr.data.t < b.data.t,
                };
                if replace {
                    lemma_world_hit_loop_minimal(objs, ray, t_min, hr.data.t, Some(hr), i + 1);
                    let res = world_hit_loop(objs, ray, t_min, hr.data.t, Some(hr), i + 1);
                    assert forall|j: int|
                        i <= j < objs.len() implies ((#[trigger] renderable_hit_spec(
                        objs[j],
                        ray,
                        t_min,
                        cur_max,
                    )) matches Some(h) ==> (res matches Some(r) && r.data.t <= h.data.t)) by {
                        match renderable_hit_spec(objs[j], ray, t_min, cur_max) {
                            Some(h2) => {
                                if j > i {
                                    lemma_renderable_hit_shrink(
                                        objs[j],
                                        ray,
                                        t_min,
                                        cur_max,
                                        hr.data.t,
                                        h2,
                                    );
                                }
                            },
                            None => {},
                        }
                    }
                } else {
                    lemma_world_hit_loop_minimal(objs, ray, t_min, cur_max, best, i + 1);
                }
            },
            None => {
                lemma_world_hit_loop_minimal(objs, ray, t_min, cur_max, best, i + 1);
            },
        }
    }
}

/// The nearest-hit query is globally minimal: whatever any single entry
/// reports for the full range, the aggregate's result is a hit with a
/// parameter at most as large — and in particular, if any entry hits, the
/// aggregate reports a hit.
pub proof fn lemma_world_hit_nearest(w: World, ray: Ray, t_min: i64, t_max: i64)
    ensures
        forall|j: int|
            0 <= j < w.objs@.len() ==> ((#[trigger] renderable_hit_spec(
                w.objs@[j],
                ray,
                t_min,
                t_max,
            )) matches Some(h) ==> (world_hit_spec(w, ray, t_min, t_max) matches Some(r)
                && r.data.t <= h.data.t)),
{
    lemma_world_hit_loop_minimal(w.objs@, ray, t_min, t_max, None, 0);
}

/// When the aggregate reports a miss, no entry hit: nearest-hit selection
/// loses nothing.
pub proof fn lemma_world_hit_miss(w: World, ray: Ray, t_min: i64, t_max: i64)
    requires
        world_hit_spec(w, ray, t_min, t_max) is None,
    ensures
        forall|j: int|
            0 <= j < w.objs@.len() ==> (#[trigger] renderable_hit_spec(w.objs@[j], ray, t_min, t_max))
                is None,
{
    lemma_world_hit_nearest(w, ray, t_min, t_max);
}

/// The induction behind hit provenance: whatever the fold returns beyond
/// the best so far was reported by one of the remaining entries.
proof fn lemma_world_hit_loop_witness(
    objs: Seq<Renderable>,
    ray: Ray,
    t_min: i64,
    cur_max: i64,
    best: Option<HitRecord>,
    i: int,
)
    requires
        0 <= i <= objs.len(),
    ensures
        ({
            let res = world_hit_loop(objs, ray, t_min, cur_max, best, i);
            res == best || exists|j: int|
                0 <= j < objs.len() && #[trigger] renderable_hit_spec(objs[j], ray, t_min, cur_max)
                    == res
        }),
    decreases objs.len() - i,
{
    if i < objs.len() {
        let res = world_hit_loop(objs, ray, t_min, cur_max, best, i);
        match renderable_hit_spec(objs[i], ray, t_min, cur_max) {
            Some(hr) => {
                lemma_renderable_hit_shrink(objs[i], ray, t_min, cur_max, cur_max, hr);
                let replace = match best {
                    None => true,
                    Some(b) => hr.data.t < b.data.t,
                };
                if replace {
                    lemma_world_hit_loop_witness(objs, ray, t_min, hr.data.t, Some(hr), i + 1);
                    lemma_world_hit_loop_minimal(objs, ray, t_min, hr.data.t, Some(hr), i + 1);
                    assert(res is Some);
                    if res == Some(hr) {
                        assert(renderable_hit_spec(objs[i], ray, t_min, cur_max) == res);
                    } else {
                        let j = choose|j: int|
                            0 <= j < objs.len() && #[trigger] renderable_hit_spec(
                                objs[j],
                                ray,
                                t_min,
                                hr.data.t,
                            ) == res;
                        let w = renderable_hit_spec(objs[j], ray, t_min, hr.data.t)->Some_0;
                        lemma_renderable_hit_grow(objs[j], ray, t_min, hr.data.t, cur_max, w);
                        assert(renderable_hit_spec(objs[j], ray, t_min, cur_max) == res);
                    }
                } else {
                    lemma_world_hit_loop_witness(objs, ray, t_min, cur_max, best, i + 1);
                }
            },
            None => {
                lemma_world_hit_loop_witness(objs, ray, t_min, cur_max, best, i + 1);
            },
        }
    }
}

/// Hit provenance: a hit the aggregate returns is exactly what one of its
/// entries reported for the full queried range. Together with
/// [`lemma_world_hit_nearest`] this is nearest-hit selection in full: the
/// result, if present, is a real intersection and the globally closest
/// one among all entries.
pub proof fn lemma_world_hit_witness(w: World, ray: Ray, t_min: i64, t_max: i64, rec: HitRecord)
    requires
        world_hit_spec(w, ray, t_min, t_max) == Some(rec),
    ensures
        exists|j: int|
            0 <= j < w.objs@.len() && #[trigger] renderable_hit_spec(w.objs@[j], ray, t_min, t_max)
                == Some(rec),
{
    lemma_world_hit_loop_witness(w.objs@, ray, t_min, t_max, None, 0);
}

/// Nearest-hit selection is insertion-order independent: when two entries
/// both hit a ray within the queried range, the aggregate returns a
/// record carrying the smaller of the two parameters whichever way the
/// two are ordered (and the earlier entry wins an exact tie).
pub proof fn lemma_nearest_hit_order_independent(
    a: Renderable,
    b: Renderable,
    w1: World,
    w2: World,
    ray: Ray,
    t_min: i64,
    t_max: i64,
    ha: HitRecord,
    hb: HitRecord,
)
    requires
        w1.objs@ == seq![a, b],
        w2.objs@ == seq![b, a],
        renderable_hit_spec(a, ray, t_min, t_max) == Some(ha),
        renderable_hit_spec(b, ray, t_min, t_max) == Some(hb),
    ensures
        ({
            let t_near = if hb.data.t < ha.data.t {
                hb.data.t
            } else {
                ha.data.t
            };
            &&& world_hit_spec(w1, ray, t_min, t_max) matches Some(r1) && r1.data.t == t_near
            &&& world_hit_spec(w2, ray, t_min, t_max) matches Some(r2) && r2.data.t == t_near
        }),
{
    lemma_renderable_hit_shrink(a, ray, t_min, t_max, ha.data.t, ha);
    lemma_renderable_hit_shrink(b, ray, t_min, t_max, hb.data.t, hb);
    lemma_renderable_hit_shrink(b, ray, t_min, t_max, ha.data.t, hb);
    lemma_renderable_hit_shrink(a, ray, t_min, t_max, hb.data.t, ha);
    assert(w1.objs@[0] == a && w1.objs@[1] == b);
    assert(w2.objs@[0] == b && w2.objs@[1] == a);
    assert(world_hit_loop(w1.objs@, ray, t_min, t_max, None, 0) == world_hit_loop(
        w1.objs@,
        ray,
        t_min,
        ha.data.t,
        Some(ha),
        1,
    ));
    assert(world_hit_loop(w2.objs@, ray, t_min, t_max, None, 0) == world_hit_loop(
        w2.objs@,
        ray,
        t_min,
        hb.data.t,
        Some(hb),
        1,
    ));
    if hb.data.t < ha.data.t {
        assert(world_hit_loop(w1.objs@, ray, t_min, ha.data.t, Some(ha), 1) == world_hit_loop(
            w1.objs@,
            ray,
            t_min,
            hb.data.t,
            Some(hb),
            2,
        ));
        assert(world_hit_loop(w1.objs@, ray, t_min, hb.data.t, Some(hb), 2) == Some(hb));
        assert(world_hit_loop(w2.objs@, ray, t_min, hb.data.t, Some(hb), 1) == world_hit_loop(
            w2.objs@,
            ray,
            t_min,
            hb.data.t,
            Some(hb),
            2,
        ));
        assert(world_hit_loop(w2.objs@, ray, t_min, hb.data.t, Some(hb), 2) == Some(hb));
    } else {
        assert(world_hit_loop(w1.objs@, ray, t_min, ha.data.t, Some(ha), 1) == world_hit_loop(
            w1.objs@,
            ray,
            t_min,
            ha.data.t,
            Some(ha),
            2,
        ));
        assert(world_hit_loop(w1.objs@, ray, t_min, ha.data.t, Some(ha), 2) == Some(ha));
        if ha.data.t < hb.data.t {
            assert(world_hit_loop(w2.objs@, ray, t_min, hb.data.t, Some(hb), 1)
                == world_hit_loop(w2.objs@, ray, t_min, ha.data.t, Some(ha), 2));
            assert(world_hit_loop(w2.objs@, ray, t_min, ha.data.t, Some(ha), 2) == Some(ha));
        } else {
            assert(world_hit_loop(w2.objs@, ray, t_min, hb.data.t, Some(hb), 1)
                == world_hit_loop(w2.objs@, ray, t_min, hb.data.t, Some(hb), 2));
            assert(world_hit_loop(w2.objs@, ray, t_min, hb.data.t, Some(hb), 2) == Some(hb));
        }
    }
}

impl World {
    /// An empty scene.
    pub fn new() -> (w: World)
        ensures
            w.objs@.len() == 0,
            world_wf(w),
    {
        World { objs: Vec::new() }
    }

    /// Appends one entry, assigning it the next stable index.
    pub fn add(&mut self, surface: Surface, material: MaterialKind)
        requires
            world_wf(*old(self)),
            surface_wf(surface),
            material_wf(material),
        ensures
            world_wf(*final(self)),
            final(self).objs@ == old(self).objs@.push(
                Renderable { ix: old(self).objs@.len() as usize, surface, material },
            ),
    {
        let ix = self.objs.len();
        self.objs.push(Renderable { ix, surface, material });
    }

    /// The nearest hit across all entries: iterate them, shrinking the
    /// upper parametric bound to the best t found so far. Called by
    /// [`crate::color`].
    pub fn hit(&self, ray: &Ray, t_min: i64, t_max: i64) -> (r: Option<HitRecord>)
        requires
            world_wf(*self),
            ray_wf(*ray),
            0 <= t_min <= t_max,
            t_max <= 0x40000000,
        ensures
            r == world_hit_spec(*self, *ray, t_min, t_max),
            (match r {
                Some(rec) => rec.obj_ix < self.objs@.len() && hit_data_wf(rec.data) && t_min
                    <= rec.data.t <= t_max,
                None => true,
            }),
            // nearest-hit: no single entry reports a closer hit
            forall|j: int|
                0 <= j < self.objs@.len() ==> ((#[trigger] renderable_hit_spec(
                    self.objs@[j],
                    *ray,
                    t_min,
                    t_max,
                )) matches Some(h) ==> (r matches Some(rec) && rec.data.t <= h.data.t)),
            // provenance: a returned hit is what some entry reported
            (r matches Some(rec) ==> exists|j: int|
                0 <= j < self.objs@.len() && #[trigger] renderable_hit_spec(
                    self.objs@[j],
                    *ray,
                    t_min,
                    t_max,
                ) == Some(rec)),
    {
        proof {
            lemma_world_hit_nearest(*self, *ray, t_min, t_max);
            match world_hit_spec(*self, *ray, t_min, t_max) {
                Some(rec) => lemma_world_hit_witness(*self, *ray, t_min, t_max, rec),
                None => (),
            }
        }
        let n = self.objs.len();
        let mut cur_max: i64 = t_max;
        let mut best: Option<HitRecord> = None;
        let mut i: usize = 0;
        while i < n
            invariant
                n == self.objs@.len(),
                i <= n,
                world_wf(*self),
                ray_wf(*ray),
                0 <= t_min <= t_max,
                t_max <= 0x40000000,
                world_hit_loop(self.objs@, *ray, t_min, cur_max, best, i as int)
                    == world_hit_spec(*self, *ray, t_min, t_max),
                (match best {
                    Some(rec) => rec.data.t == cur_max && t_min <= cur_max <= t_max && rec.obj_ix
                        < n && hit_data_wf(rec.data),
                    None => cur_max == t_max,
                }),
            decreases n - i,
        {
            let rd = self.objs[i];
            proof {
                assert(renderable_wf(self.objs@[i as int]));
            }
            let rec_opt = rd.hit(ray, t_min, cur_max);
            match rec_opt {
                Some(hr) => {
                    let replace = match &best {
                        None => true,
                        Some(b) => hr.data.t < b.data.t,
                    };
                    if replace {
                        cur_max = hr.data.t;
                        best = Some(hr);
                    }
                },
                None => {},
            }
            i = i + 1;
        }
        best
    }
}

} // verus!
