//! The intersection backends' shared result type and dispatch.
//!
//! Both backends answer one question: the nearest hit of a ray within a
//! parametric interval.  A `TraceResult` carries everything shading
//! needs; its `geometry_index` is the stable index of the geometry hit,
//! the sole cross-reference back to a material.

use vstd::prelude::*;

use crate::fixed::SCALE;
use crate::naive::{hit_matches_object, object_degenerate, object_hit_dist, NaiveObject, NaiveTracer};
use crate::vec3::{dot_raw_spec, in_range, Vec3Fx};
use crate::world::{Ray, TMAX};

verus! {

/// One hit: parametric distance, world-space point, facing-adjusted
/// unit normal, the geometry index, and the surface UV.
#[derive(Clone, Copy, Debug)]
pub struct TraceResult {
    pub distance: i64,
    pub point: Vec3Fx,
    pub normal: Vec3Fx,
    pub geometry_index: usize,
    pub front_face: bool,
    pub uv: (i64, i64),
}

impl TraceResult {
    pub open spec fn wf(self) -> bool {
        &&& 0 <= self.distance <= TMAX
        &&& in_range(self.point, 0x4000000000000int)
        &&& in_range(self.normal, SCALE as int)
        &&& 0 <= self.uv.0 <= SCALE
        &&& 0 <= self.uv.1 <= SCALE
    }
}

/// The selectable intersection backend, fixed at construction time.
pub enum Tracer {
    NaiveTracer(NaiveTracer),
}

impl Tracer {
    /// Nearest hit of the ray with parametric distance in
    /// [t_min, t_max], or None.  A backend that misses every primitive
    /// reports None; one with a sure (nondegenerate) hit reports Some,
    /// and every hit names the primitive it came from.
    pub fn trace(&self, ray: &Ray, t_min: i64, t_max: i64) -> (r: Option<TraceResult>)
        requires
            self.wf(),
            ray.wf(),
            0 <= t_min <= t_max <= TMAX,
        ensures
            r is Some ==> ({
                let hit = r->Some_0;
                &&& hit.wf()
                &&& t_min <= hit.distance <= t_max
                &&& (hit.geometry_index as int) < self.geometry_count()
                &&& dot_raw_spec(ray.direction, hit.normal) <= 0
                &&& crate::vec3::is_near_unit(hit.normal)
                &&& hit.point == ray.at_spec(hit.distance as int)
            }),
            self.misses_all(*ray, t_min as int, t_max as int) ==> r is None,
            self.surely_hits(*ray, t_min as int, t_max as int) ==> r is Some,
            r is Some ==> exists|k: int|
                0 <= k < self.spec_objects().len() && (#[trigger] object_hit_dist(
                    self.spec_objects()[k],
                    *ray,
                    t_min as int,
                    t_max as int,
                )) == Some(r->Some_0.distance as int) && self.spec_objects()[k].geometry_index == r
                    ->Some_0.geometry_index && hit_matches_object(
                    self.spec_objects()[k],
                    *ray,
                    t_min as int,
                    t_max as int,
                    r->Some_0,
                ),
    {
        match self {
            Tracer::NaiveTracer(tracer) => {
                let r = tracer.trace(ray, t_min, t_max);
                proof {
                    if r is None && self.surely_hits(*ray, t_min as int, t_max as int) {
                        let k = choose|k: int|
                            0 <= k < self.spec_objects().len() && (#[trigger] object_hit_dist(
                                self.spec_objects()[k],
                                *ray,
                                t_min as int,
                                t_max as int,
                            )) is Some && !object_degenerate(
                                self.spec_objects()[k],
                                *ray,
                                t_min as int,
                                t_max as int,
                            );
                        assert(false);
                    }
                }
                r
            },
        }
    }

    pub open spec fn wf(self) -> bool {
        match self {
            Tracer::NaiveTracer(tracer) => tracer.wf(),
        }
    }

    /// How many geometries the backend was built from: hit indices
    /// always stay below this.
    pub open spec fn geometry_count(self) -> int {
        match self {
            Tracer::NaiveTracer(tracer) => tracer.geometry_count(),
        }
    }

    /// The primitives the backend holds.
    pub open spec fn spec_objects(self) -> Seq<NaiveObject> {
        match self {
            Tracer::NaiveTracer(tracer) => tracer.objects@,
        }
    }

    /// Every primitive's own spec reports a miss for this ray.
    pub open spec fn misses_all(self, ray: Ray, t_min: int, t_max: int) -> bool {
        forall|k: int|
            0 <= k < self.spec_objects().len() ==> (#[trigger] object_hit_dist(
                self.spec_objects()[k],
                ray,
                t_min,
                t_max,
            )) is None
    }

    /// Some primitive's spec reports a nondegenerate hit: the backend
    /// cannot miss.
    pub open spec fn surely_hits(self, ray: Ray, t_min: int, t_max: int) -> bool {
        exists|k: int|
            0 <= k < self.spec_objects().len() && (#[trigger] object_hit_dist(
                self.spec_objects()[k],
                ray,
                t_min,
                t_max,
            )) is Some && !object_degenerate(self.spec_objects()[k], ray, t_min, t_max)
    }
}

} // verus!
