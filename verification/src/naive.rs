//! The brute-force intersection backend.
//!
//! At construction every Geometry is decomposed into closed-form
//! primitives (spheres, parallelogram quads, triangles): a triangle
//! mesh into one triangle per index triple, an oblique box into its six
//! parallelogram faces.  Each primitive remembers the index of the
//! Geometry it came from, so a hit always names the original entry.
//! Every query tests every primitive and keeps the nearest hit.

use vstd::prelude::*;

use crate::angles::{acos_fx, acos_spec, atan2_fx, atan2_spec, PI_FX, TWO_PI_FX};
use crate::fixed::{div_trunc, div_trunc_i128, fx_div, isqrt_u128, s_abs, sqrt_floor, SCALE};
use crate::tracer::TraceResult;
use crate::vec3::{cross_x_spec, cross_y_spec, cross_z_spec, dot_raw_spec, in_range, lemma_prod_bound, Vec3Fx};
use crate::world::{Geometry, GeometryType, Ray, TMAX, CMAX, DMAX};

verus! {

/// Plane tests treat smaller denominators (in raw SCALE^2 units) as
/// parallel: about 1e-6 of a unit.
pub const PLANE_EPS_RAW: i128 = 4295;

/// The edge-determinant test of a triangle treats smaller determinants
/// as degenerate: 1e-6 of a unit, in raw SCALE^3 units.
pub const DET_EPS_RAW: i128 = 281474977;

/// A box whose edge-basis determinant (raw SCALE^3 units) is smaller
/// than this is singular (flattened) and intersects nothing.
pub const BOX_DET_EPS_RAW: i128 = 2814750;

/// One primitive with the index of the Geometry it was decomposed from.
pub struct NaiveObject {
    pub geometry_index: usize,
    pub geometry: NaiveGeometry,
}

pub enum NaiveGeometry {
    Sphere { center: Vec3Fx, radius: i64 },
    Quad { origin: Vec3Fx, u: Vec3Fx, v: Vec3Fx, normal: Vec3Fx, d: i64 },
    Triangle { p1: Vec3Fx, p2: Vec3Fx, p3: Vec3Fx },
}

impl NaiveGeometry {
    pub open spec fn wf(self) -> bool {
        match self {
            NaiveGeometry::Sphere { center, radius } => {
                &&& in_range(center, CMAX as int)
                &&& 0 <= radius <= CMAX
            },
            NaiveGeometry::Quad { origin, u, v, normal, d } => {
                &&& in_range(origin, 2 * CMAX as int)
                &&& in_range(u, CMAX as int)
                &&& in_range(v, CMAX as int)
                &&& in_range(normal, SCALE as int)
                &&& (normal == (Vec3Fx { x: 0, y: 0, z: 0 }) || crate::vec3::is_near_unit(normal))
                &&& s_abs(d as int) <= 0x80000000int
            },
            NaiveGeometry::Triangle { p1, p2, p3 } => {
                &&& in_range(p1, CMAX as int)
                &&& in_range(p2, CMAX as int)
                &&& in_range(p3, CMAX as int)
            },
        }
    }
}

/// Componentwise sum, as box-face anchors use it.
pub open spec fn v_add_spec(a: Vec3Fx, b: Vec3Fx) -> Vec3Fx {
    Vec3Fx { x: (a.x + b.x) as i64, y: (a.y + b.y) as i64, z: (a.z + b.z) as i64 }
}

/// The quad primitive built for edges (u, v) anchored at `origin`: its
/// stored plane normal is the unit cross product of the edges (zero
/// when they are collinear) and d the plane offset of the anchor.
pub open spec fn quad_object_spec(origin: Vec3Fx, u: Vec3Fx, v: Vec3Fx, index: int) -> NaiveObject {
    let c = Vec3Fx {
        x: crate::vec3::cross_x_spec(u, v) as i64,
        y: crate::vec3::cross_y_spec(u, v) as i64,
        z: crate::vec3::cross_z_spec(u, v) as i64,
    };
    let normal = if c.x == 0 && c.y == 0 && c.z == 0 {
        Vec3Fx { x: 0, y: 0, z: 0 }
    } else {
        crate::vec3::unit_of(c)
    };
    let d = div_trunc(dot_raw_spec(normal, origin), SCALE as int) as i64;
    NaiveObject {
        geometry_index: index as usize,
        geometry: NaiveGeometry::Quad { origin, u, v, normal, d },
    }
}

/// Whether an oblique box's edge basis is singular (flattened): its
/// raw determinant falls inside BOX_DET_EPS_RAW.
pub open spec fn box_singular(u: Vec3Fx, v: Vec3Fx, w: Vec3Fx) -> bool {
    let det = tri_dot(tri_cross(v, w), u);
    -(BOX_DET_EPS_RAW as int) < det && det < BOX_DET_EPS_RAW as int
}

/// The primitives one Geometry entry decomposes into, each carrying the
/// entry's index: a sphere or quad stays one primitive, a mesh becomes
/// one triangle per index triple (in order), an oblique box its six
/// faces (or nothing when its basis is singular).
pub open spec fn decompose_one(g: Geometry, index: int) -> Seq<NaiveObject> {
    match g.geometry_type {
        GeometryType::Sphere { center, radius } => seq![
            NaiveObject {
                geometry_index: index as usize,
                geometry: NaiveGeometry::Sphere { center, radius },
            },
        ],
        GeometryType::Quad { origin, u, v } => seq![quad_object_spec(origin, u, v, index)],
        GeometryType::TriangleMesh(mesh) => Seq::new(
            mesh.indices@.len(),
            |k: int|
                NaiveObject {
                    geometry_index: index as usize,
                    geometry: NaiveGeometry::Triangle {
                        p1: mesh.verts@[mesh.indices@[k].0 as int],
                        p2: mesh.verts@[mesh.indices@[k].1 as int],
                        p3: mesh.verts@[mesh.indices@[k].2 as int],
                    },
                },
        ),
        GeometryType::ObliqueBox { origin, u, v, w } => {
            if box_singular(u, v, w) {
                Seq::empty()
            } else {
                seq![
                    quad_object_spec(origin, u, v, index),
                    quad_object_spec(v_add_spec(origin, w), u, v, index),
                    quad_object_spec(origin, u, w, index),
                    quad_object_spec(v_add_spec(origin, v), u, w, index),
                    quad_object_spec(origin, w, v, index),
                    quad_object_spec(v_add_spec(origin, u), w, v, index),
                ]
            }
        },
    }
}

/// The full decomposition of a geometry list, entry by entry, in order.
pub open spec fn decompose(geometry: Seq<Geometry>) -> Seq<NaiveObject>
    decreases geometry.len(),
{
    if geometry.len() == 0 {
        Seq::empty()
    } else {
        decompose(geometry.drop_last()) + decompose_one(
            geometry.last(),
            geometry.len() - 1,
        )
    }
}

/// Appending one entry appends its decomposition.
proof fn lemma_decompose_step(geometry: Seq<Geometry>, i: int)
    requires
        0 <= i < geometry.len(),
    ensures
        decompose(geometry.subrange(0, i + 1)) == decompose(geometry.subrange(0, i))
            + decompose_one(geometry[i], i),
{
    let s = geometry.subrange(0, i + 1);
    assert(s.len() == i + 1);
    assert(s.drop_last() =~= geometry.subrange(0, i));
    assert(s.last() == geometry[i]);
}

pub struct NaiveTracer {
    pub objects: Vec<NaiveObject>,
    pub num_geometries: usize,
}

impl NaiveTracer {
    pub open spec fn wf(self) -> bool {
        forall|i: int|
            0 <= i < self.objects@.len() ==> {
                &&& (#[trigger] self.objects@[i]).geometry.wf()
                &&& (self.objects@[i].geometry_index as int) < self.num_geometries
            }
    }

    pub open spec fn geometry_count(self) -> int {
        self.num_geometries as int
    }

    /// Decompose the geometry list into primitives.  Every primitive is
    /// well formed and carries the index of its source entry.
    pub fn new(geometry: &Vec<Geometry>) -> (tracer: NaiveTracer)
        requires
            forall|i: int| 0 <= i < geometry@.len() ==> (#[trigger] geometry@[i]).wf(),
        ensures
            tracer.wf(),
            tracer.geometry_count() == geometry@.len(),
            tracer.objects@ == decompose(geometry@),
    {
        let mut objects: Vec<NaiveObject> = Vec::new();
        let len = geometry.len();
        let mut index: usize = 0;
        while index < len
            invariant
                index <= len,
                len == geometry@.len(),
                forall|i: int| 0 <= i < geometry@.len() ==> (#[trigger] geometry@[i]).wf(),
                forall|i: int|
                    0 <= i < objects@.len() ==> {
                        &&& (#[trigger] objects@[i]).geometry.wf()
                        &&& (objects@[i].geometry_index as int) < len
                    },
                objects@ == decompose(geometry@.subrange(0, index as int)),
            decreases len - index,
        {
            proof {
                lemma_decompose_step(geometry@, index as int);
            }
            let ghost objects_before = objects@;
            match &geometry[index].geometry_type {
                GeometryType::Sphere { center, radius } => {
                    objects.push(
                        NaiveObject {
                            geometry_index: index,
                            geometry: NaiveGeometry::Sphere { center: *center, radius: *radius },
                        },
                    );
                    proof {
                        assert(objects@ =~= objects_before + decompose_one(
                            geometry@[index as int],
                            index as int,
                        ));
                    }
                },
                GeometryType::Quad { origin, u, v } => {
                    objects.push(make_quad(*origin, *u, *v, index));
                    proof {
                        assert(objects@ =~= objects_before + decompose_one(
                            geometry@[index as int],
                            index as int,
                        ));
                    }
                },
                GeometryType::TriangleMesh(mesh) => {
                    let triples = mesh.indices.len();
                    let mut k: usize = 0;
                    while k < triples
                        invariant
                            k <= triples,
                            index < geometry@.len(),
                            triples == mesh.indices@.len(),
                            mesh.wf(),
                            len == geometry@.len(),
                            geometry@[index as int].geometry_type == GeometryType::TriangleMesh(
                                *mesh,
                            ),
                            forall|i: int|
                                0 <= i < objects@.len() ==> {
                                    &&& (#[trigger] objects@[i]).geometry.wf()
                                    &&& (objects@[i].geometry_index as int) < len
                                },
                            objects@ =~= objects_before + decompose_one(
                                geometry@[index as int],
                                index as int,
                            ).take(k as int),
                        decreases triples - k,
                    {
                        let (i1, i2, i3) = mesh.indices[k];
                        let p1 = mesh.verts[i1 as usize];
                        let p2 = mesh.verts[i2 as usize];
                        let p3 = mesh.verts[i3 as usize];
                        objects.push(
                            NaiveObject {
                                geometry_index: index,
                                geometry: NaiveGeometry::Triangle { p1, p2, p3 },
                            },
                        );
                        proof {
                            assert(objects@ =~= objects_before + decompose_one(
                                geometry@[index as int],
                                index as int,
                            ).take(k + 1));
                        }
                        k += 1;
                    }
                    proof {
                        assert(decompose_one(geometry@[index as int], index as int).take(
                            triples as int,
                        ) =~= decompose_one(geometry@[index as int], index as int));
                        assert(objects@ =~= objects_before + decompose_one(
                            geometry@[index as int],
                            index as int,
                        ));
                    }
                },
                GeometryType::ObliqueBox { origin, u, v, w } => {
                    // A singular edge basis is a flattened box: it
                    // intersects nothing, so no faces are built.
                    let basis = dot_wide(
                        cross_wide(*v, *w, CMAX, CMAX),
                        *u,
                        0x200000000000000,
                        CMAX,
                    );
                    if basis <= -BOX_DET_EPS_RAW || basis >= BOX_DET_EPS_RAW {
                        let far_w = origin.add_v(*w);
                        let far_v = origin.add_v(*v);
                        let far_u = origin.add_v(*u);
                        proof {
                            assert(far_w == v_add_spec(*origin, *w));
                            assert(far_v == v_add_spec(*origin, *v));
                            assert(far_u == v_add_spec(*origin, *u));
                        }
                        objects.push(make_quad(*origin, *u, *v, index));
                        objects.push(make_quad(far_w, *u, *v, index));
                        objects.push(make_quad(*origin, *u, *w, index));
                        objects.push(make_quad(far_v, *u, *w, index));
                        objects.push(make_quad(*origin, *w, *v, index));
                        objects.push(make_quad(far_u, *w, *v, index));
                        proof {
                            assert(!box_singular(*u, *v, *w));
                            assert(objects@ =~= objects_before + decompose_one(
                                geometry@[index as int],
                                index as int,
                            ));
                        }
                    } else {
                        proof {
                            assert(box_singular(*u, *v, *w));
                            assert(objects@ =~= objects_before + decompose_one(
                                geometry@[index as int],
                                index as int,
                            ));
                        }
                    }
                },
            }
            index += 1;
        }
        proof {
            assert(geometry@.subrange(0, len as int) =~= geometry@);
        }
        NaiveTracer { objects, num_geometries: len }
    }

    /// Nearest hit among all primitives with parametric distance in
    /// [t_min, t_max].  A miss means every primitive's own spec reports
    /// a miss (or a degenerate hit with no usable normal); a hit is one
    /// of the primitives' spec hits, no farther than any nondegenerate
    /// spec hit, and carries that primitive's source geometry index.
    pub fn trace(&self, ray: &Ray, t_min: i64, t_max: i64) -> (r: Option<TraceResult>)
        requires
            self.wf(),
            ray.wf(),
            0 <= t_min <= t_max <= TMAX,
        ensures
            r is Some ==> ({
                let hit = r->Some_0;
                &&& hit.wf()
                &&& t_min <= hit.distance <= t_max
                &&& (hit.geometry_index as int) < self.geometry_count()
                &&& dot_raw_spec(ray.direction, hit.normal) <= 0
                &&& crate::vec3::is_near_unit(hit.normal)
                &&& hit.point == ray.at_spec(hit.distance as int)
            }),
            r is None ==> forall|k: int|
                0 <= k < self.objects@.len() ==> ((#[trigger] object_hit_dist(
                    self.objects@[k],
                    *ray,
                    t_min as int,
                    t_max as int,
                )) is None || object_degenerate(self.objects@[k], *ray, t_min as int, t_max as int)),
            r is Some ==> forall|k: int|
                0 <= k < self.objects@.len() && (#[trigger] object_hit_dist(
                    self.objects@[k],
                    *ray,
                    t_min as int,
                    t_max as int,
                )) is Some && !object_degenerate(self.objects@[k], *ray, t_min as int, t_max as int)
                    ==> r->Some_0.distance as int <= object_hit_dist(
                    self.objects@[k],
                    *ray,
                    t_min as int,
                    t_max as int,
                )->Some_0,
            r is Some ==> exists|k: int|
                0 <= k < self.objects@.len() && (#[trigger] object_hit_dist(
                    self.objects@[k],
                    *ray,
                    t_min as int,
                    t_max as int,
                )) == Some(r->Some_0.distance as int) && self.objects@[k].geometry_index == r
                    ->Some_0.geometry_index && hit_matches_object(
                    self.objects@[k],
                    *ray,
                    t_min as int,
                    t_max as int,
                    r->Some_0,
                ),
    {
        let mut closest: Option<TraceResult> = None;
        let n = self.objects.len();
        let mut i: usize = 0;
        while i < n
            invariant
                i <= n,
                n == self.objects@.len(),
                self.wf(),
                ray.wf(),
                0 <= t_min <= t_max <= TMAX,
                closest is Some ==> ({
                    let hit = closest->Some_0;
                    &&& hit.wf()
                    &&& t_min <= hit.distance <= t_max
                    &&& (hit.geometry_index as int) < self.geometry_count()
                    &&& dot_raw_spec(ray.direction, hit.normal) <= 0
                    &&& crate::vec3::is_near_unit(hit.normal)
                    &&& hit.point == ray.at_spec(hit.distance as int)
                }),
                closest is None ==> forall|k: int|
                    0 <= k < i ==> ((#[trigger] object_hit_dist(
                        self.objects@[k],
                        *ray,
                        t_min as int,
                        t_max as int,
                    )) is None || object_degenerate(
                        self.objects@[k],
                        *ray,
                        t_min as int,
                        t_max as int,
                    )),
                closest is Some ==> forall|k: int|
                    0 <= k < i && (#[trigger] object_hit_dist(
                        self.objects@[k],
                        *ray,
                        t_min as int,
                        t_max as int,
                    )) is Some && !object_degenerate(
                        self.objects@[k],
                        *ray,
                        t_min as int,
                        t_max as int,
                    ) ==> closest->Some_0.distance as int <= object_hit_dist(
                        self.objects@[k],
                        *ray,
                        t_min as int,
                        t_max as int,
                    )->Some_0,
                closest is Some ==> exists|k: int|
                    0 <= k < i && (#[trigger] object_hit_dist(
                        self.objects@[k],
                        *ray,
                        t_min as int,
                        t_max as int,
                    )) == Some(closest->Some_0.distance as int) && self.objects@[
                        k
                    ].geometry_index == closest->Some_0.geometry_index && hit_matches_object(
                        self.objects@[k],
                        *ray,
                        t_min as int,
                        t_max as int,
                        closest->Some_0,
                    ),
            decreases n - i,
        {
            let object = &self.objects[i];
            let candidate = object_hit(object, ray, t_min, t_max);
            match candidate {
                Some(hit) => {
                    proof {
                        assert(object_hit_dist(self.objects@[i as int], *ray, t_min as int,
                            t_max as int) == Some(hit.distance as int));
                    }
                    match &closest {
                        Some(best) => {
                            if hit.distance < best.distance {
                                closest = Some(hit);
                            }
                        },
                        None => {
                            closest = Some(hit);
                        },
                    }
                },
                None => {
                },
            }
            i += 1;
        }
        closest
    }
}


/// The parametric distance at which one primitive reports a hit, per
/// the shape's own spec function.
pub open spec fn object_hit_dist(o: NaiveObject, ray: Ray, t_min: int, t_max: int) -> Option<
    int,
> {
    match o.geometry {
        NaiveGeometry::Sphere { center, radius } => sphere_hit_t(
            center,
            radius as int,
            ray,
            t_min,
            t_max,
        ),
        NaiveGeometry::Quad { origin, u, v, normal, d } => {
            match quad_hit_full(origin, u, v, normal, d as int, ray, t_min, t_max) {
                Some(tuv) => Some(tuv.0),
                None => None,
            }
        },
        NaiveGeometry::Triangle { p1, p2, p3 } => {
            match triangle_hit(p1, p2, p3, ray, t_min, t_max) {
                Some(tuv) => Some(tuv.0),
                None => None,
            }
        },
    }
}

/// The one way a primitive's runtime test can drop a hit its spec
/// function reports: the hit has no usable normal (a sphere hit landing
/// exactly on the center, a triangle with a zero face cross product).
/// Quads never drop a hit.
pub open spec fn object_degenerate(o: NaiveObject, ray: Ray, t_min: int, t_max: int) -> bool {
    match o.geometry {
        NaiveGeometry::Sphere { center, radius } => {
            let h = sphere_hit_t(center, radius as int, ray, t_min, t_max);
            h is Some && ray.at_spec(h->Some_0) == center
        },
        NaiveGeometry::Quad { origin, u, v, normal, d } => false,
        NaiveGeometry::Triangle { p1, p2, p3 } => {
            let e1 = tri_sub(p2, p1);
            let e2 = tri_sub(p3, p1);
            cross_x_spec(e1, e2) == 0 && cross_y_spec(e1, e2) == 0 && cross_z_spec(e1, e2) == 0
        },
    }
}

/// Everything one primitive's test pins about a hit it reports: the
/// shape's own distance spec, UV meaning, outward-normal construction
/// and facing convention.  `trace` carries this for the primitive its
/// hit came from, so the per-shape facts are reachable from the public
/// contract.
pub open spec fn hit_matches_object(
    o: NaiveObject,
    ray: Ray,
    t_min: int,
    t_max: int,
    hit: TraceResult,
) -> bool {
    match o.geometry {
        NaiveGeometry::Sphere { center, radius } => {
            let outward = crate::vec3::unit_of(tri_sub(hit.point, center));
            &&& sphere_hit_t(center, radius as int, ray, t_min, t_max) == Some(hit.distance as int)
            &&& hit.front_face == (dot_raw_spec(ray.direction, outward) < 0)
            &&& hit.normal == (if hit.front_face {
                outward
            } else {
                Vec3Fx { x: (-outward.x) as i64, y: (-outward.y) as i64, z: (-outward.z) as i64 }
            })
            &&& hit.uv.0 == crate::fixed::fx_div_spec(
                atan2_spec(-outward.z as int, outward.x as int) + PI_FX,
                TWO_PI_FX as int,
            )
            &&& hit.uv.1 == crate::fixed::fx_div_spec(acos_spec(-outward.y as int), PI_FX as int)
        },
        NaiveGeometry::Quad { origin, u, v, normal, d } => {
            &&& quad_hit_full(origin, u, v, normal, d as int, ray, t_min, t_max) == Some(
                (hit.distance as int, hit.uv.0 as int, hit.uv.1 as int),
            )
            &&& hit.uv.0 == quad_basis_a(origin, u, v, hit.point)
            &&& hit.uv.1 == quad_basis_b(origin, u, v, hit.point)
            &&& hit.front_face == (dot_raw_spec(ray.direction, normal) < 0)
            &&& hit.normal == (if hit.front_face {
                normal
            } else {
                Vec3Fx { x: (-normal.x) as i64, y: (-normal.y) as i64, z: (-normal.z) as i64 }
            })
        },
        NaiveGeometry::Triangle { p1, p2, p3 } => {
            let e1 = tri_sub(p2, p1);
            let e2 = tri_sub(p3, p1);
            let face = Vec3Fx {
                x: cross_x_spec(e1, e2) as i64,
                y: cross_y_spec(e1, e2) as i64,
                z: cross_z_spec(e1, e2) as i64,
            };
            let outward = crate::vec3::unit_of(face);
            &&& triangle_hit(p1, p2, p3, ray, t_min, t_max) == Some(
                (hit.distance as int, hit.uv.0 as int, hit.uv.1 as int),
            )
            &&& hit.front_face == (dot_raw_spec(ray.direction, outward) < 0)
            &&& hit.normal == (if hit.front_face {
                outward
            } else {
                Vec3Fx { x: (-outward.x) as i64, y: (-outward.y) as i64, z: (-outward.z) as i64 }
            })
        },
    }
}

/// Law (quad center): a hit point that is exactly the quad's geometric
/// center, origin + u/2 + v/2, has edge-basis UV exactly (1/2, 1/2) -
/// whenever this quad's rescaled edge and offset dot products land
/// exactly on the fixed-point grid (true of every quad whose
/// coordinates are multiples of 256, axis-aligned or skewed alike; for
/// other quads the UV is the same up to truncation).
pub proof fn lemma_quad_center_uv(origin: Vec3Fx, u: Vec3Fx, v: Vec3Fx, point: Vec3Fx)
    requires
        in_range(origin, 2 * CMAX as int),
        in_range(u, CMAX as int),
        in_range(v, CMAX as int),
        in_range(point, 0x4000000000000int),
        2 * (point.x - origin.x) == u.x + v.x,
        2 * (point.y - origin.y) == u.y + v.y,
        2 * (point.z - origin.z) == u.z + v.z,
        dot_raw_spec(u, u) % (SCALE as int) == 0,
        dot_raw_spec(v, v) % (SCALE as int) == 0,
        dot_raw_spec(u, v) % (SCALE as int) == 0,
        dot_raw_spec(tri_sub(point, origin), u) % (SCALE as int) == 0,
        dot_raw_spec(tri_sub(point, origin), v) % (SCALE as int) == 0,
        quad_gram_det(u, v) > 0,
    ensures
        quad_basis_a(origin, u, v, point) == SCALE as int / 2,
        quad_basis_b(origin, u, v, point) == SCALE as int / 2,
{
    let w = tri_sub(point, origin);
    assert(w.x == point.x - origin.x && w.y == point.y - origin.y && w.z == point.z - origin.z);
    // twice the center's offset dots are the edge dot sums
    assert(2 * dot_raw_spec(w, u) == dot_raw_spec(u, u) + dot_raw_spec(u, v)) by (nonlinear_arith)
        requires
            2 * w.x == u.x + v.x,
            2 * w.y == u.y + v.y,
            2 * w.z == u.z + v.z,
            dot_raw_spec(w, u) == w.x * u.x + w.y * u.y + w.z * u.z,
            dot_raw_spec(u, u) == u.x * u.x + u.y * u.y + u.z * u.z,
            dot_raw_spec(u, v) == u.x * v.x + u.y * v.y + u.z * v.z,
    ;
    assert(2 * dot_raw_spec(w, v) == dot_raw_spec(u, v) + dot_raw_spec(v, v)) by (nonlinear_arith)
        requires
            2 * w.x == u.x + v.x,
            2 * w.y == u.y + v.y,
            2 * w.z == u.z + v.z,
            dot_raw_spec(w, v) == w.x * v.x + w.y * v.y + w.z * v.z,
            dot_raw_spec(v, v) == v.x * v.x + v.y * v.y + v.z * v.z,
            dot_raw_spec(u, v) == u.x * v.x + u.y * v.y + u.z * v.z,
    ;
    // all five rescaled dots are exact
    crate::fixed::lemma_div_trunc_exact(dot_raw_spec(u, u), SCALE as int);
    crate::fixed::lemma_div_trunc_exact(dot_raw_spec(v, v), SCALE as int);
    crate::fixed::lemma_div_trunc_exact(dot_raw_spec(u, v), SCALE as int);
    crate::fixed::lemma_div_trunc_exact(dot_raw_spec(w, u), SCALE as int);
    crate::fixed::lemma_div_trunc_exact(dot_raw_spec(w, v), SCALE as int);
    let uu = dot_raw_spec(u, u) / SCALE as int;
    let vv = dot_raw_spec(v, v) / SCALE as int;
    let uv = dot_raw_spec(u, v) / SCALE as int;
    let wu = dot_raw_spec(w, u) / SCALE as int;
    let wv = dot_raw_spec(w, v) / SCALE as int;
    assert(2 * wu == uu + uv) by {
        vstd::arithmetic::div_mod::lemma_hoist_over_denominator(
            dot_raw_spec(u, u),
            uv,
            SCALE as nat,
        );
        assert(dot_raw_spec(u, u) + uv * SCALE as int == 2 * dot_raw_spec(w, u) - dot_raw_spec(
            u,
            v,
        ) + uv * SCALE as int);
        assert(uv * SCALE as int == dot_raw_spec(u, v)) by (nonlinear_arith)
            requires
                SCALE as int * uv == dot_raw_spec(u, v),
        ;
        vstd::arithmetic::div_mod::lemma_div_multiples_vanish(2 * wu, SCALE as int);
        assert(SCALE as int * (2 * wu) == 2 * (SCALE as int * wu)) by (nonlinear_arith);
    }
    assert(2 * wv == uv + vv) by {
        assert(uv * SCALE as int == dot_raw_spec(u, v)) by (nonlinear_arith)
            requires
                SCALE as int * uv == dot_raw_spec(u, v),
        ;
        assert(vv * SCALE as int == dot_raw_spec(v, v)) by (nonlinear_arith)
            requires
                SCALE as int * vv == dot_raw_spec(v, v),
        ;
        assert(wv * SCALE as int == dot_raw_spec(w, v)) by (nonlinear_arith)
            requires
                SCALE as int * wv == dot_raw_spec(w, v),
        ;
        assert((2 * wv) * (SCALE as int) == (uv + vv) * (SCALE as int)) by (nonlinear_arith)
            requires
                2 * (wv * SCALE as int) == uv * SCALE as int + vv * SCALE as int,
        ;
        assert(2 * wv == uv + vv) by (nonlinear_arith)
            requires
                (2 * wv) * (SCALE as int) == (uv + vv) * (SCALE as int),
                SCALE as int > 0,
        ;
    }
    let det = quad_gram_det(u, v);
    assert(det == uu * vv - uv * uv);
    // Cramer's numerators are exactly half the determinant
    let a_num = wu * vv - wv * uv;
    let b_num = wv * uu - wu * uv;
    assert(2 * a_num == det) by (nonlinear_arith)
        requires
            a_num == wu * vv - wv * uv,
            det == uu * vv - uv * uv,
            2 * wu == uu + uv,
            2 * wv == uv + vv,
    ;
    assert(2 * b_num == det) by (nonlinear_arith)
        requires
            b_num == wv * uu - wu * uv,
            det == uu * vv - uv * uv,
            2 * wu == uu + uv,
            2 * wv == uv + vv,
    ;
    // so each coordinate is (det/2 * SCALE) / det == SCALE / 2 exactly
    assert(a_num * SCALE as int == (2 * a_num) * (SCALE as int / 2)) by (nonlinear_arith)
        requires
            SCALE == 65536,
    ;
    assert(a_num > 0);
    vstd::arithmetic::div_mod::lemma_div_multiples_vanish(SCALE as int / 2, 2 * a_num);
    assert(a_num * SCALE as int > 0) by (nonlinear_arith)
        requires
            a_num > 0,
            SCALE as int > 0,
    ;
    assert(quad_basis_a(origin, u, v, point) == div_trunc(a_num * SCALE as int, det));
    assert(div_trunc(a_num * SCALE as int, 2 * a_num) == SCALE as int / 2) by {
        assert(s_abs(a_num * SCALE as int) == a_num * SCALE as int);
        assert(s_abs(2 * a_num) == 2 * a_num);
        assert((2 * a_num) * (SCALE as int / 2) / (2 * a_num) == SCALE as int / 2);
    }
    assert(b_num * SCALE as int == (2 * b_num) * (SCALE as int / 2)) by (nonlinear_arith)
        requires
            SCALE == 65536,
    ;
    vstd::arithmetic::div_mod::lemma_div_multiples_vanish(SCALE as int / 2, 2 * b_num);
    assert(b_num * SCALE as int > 0) by (nonlinear_arith)
        requires
            b_num > 0,
            SCALE as int > 0,
    ;
    assert(quad_basis_b(origin, u, v, point) == div_trunc(b_num * SCALE as int, det));
    assert(div_trunc(b_num * SCALE as int, 2 * b_num) == SCALE as int / 2) by {
        assert(s_abs(b_num * SCALE as int) == b_num * SCALE as int);
        assert(s_abs(2 * b_num) == 2 * b_num);
        assert((2 * b_num) * (SCALE as int / 2) / (2 * b_num) == SCALE as int / 2);
    }
}

/// Build a quad primitive: the stored plane normal is the unit cross
/// product of the edges (zero for a degenerate quad, which then never
/// intersects anything), and d its plane offset.
fn make_quad(origin: Vec3Fx, u: Vec3Fx, v: Vec3Fx, index: usize) -> (o: NaiveObject)
    requires
        in_range(origin, 2 * CMAX as int),
        in_range(u, CMAX as int),
        in_range(v, CMAX as int),
    ensures
        o.geometry.wf(),
        o.geometry_index == index,
        o == quad_object_spec(origin, u, v, index as int),
{
    let cross = u.cross_v(v);
    proof {
        assert(cross == (Vec3Fx {
            x: crate::vec3::cross_x_spec(u, v) as i64,
            y: crate::vec3::cross_y_spec(u, v) as i64,
            z: crate::vec3::cross_z_spec(u, v) as i64,
        }));
    }
    let normal: Vec3Fx = match cross.unit_v() {
        Some(n) => n,
        None => Vec3Fx::zero(),
    };
    let d: i64 = normal.dot_v(origin);
    proof {
        lemma_prod_pair(normal.x as int, origin.x as int, SCALE as int, 0x20000000int);
        lemma_prod_pair(normal.y as int, origin.y as int, SCALE as int, 0x20000000int);
        lemma_prod_pair(normal.z as int, origin.z as int, SCALE as int, 0x20000000int);
        vstd::arithmetic::div_mod::lemma_div_is_ordered(
            s_abs(dot_raw_spec(normal, origin)),
            3 * (SCALE as int * 0x20000000int),
            SCALE as int,
        );
        assert(3 * (SCALE as int * 0x20000000int) == SCALE as int * 0x60000000int)
            by (nonlinear_arith);
        vstd::arithmetic::div_mod::lemma_div_multiples_vanish(0x60000000int, SCALE as int);
        assert(s_abs(d as int) == s_abs(dot_raw_spec(normal, origin)) / SCALE as int);
    }
    NaiveObject {
        geometry_index: index,
        geometry: NaiveGeometry::Quad { origin, u, v, normal, d },
    }
}

/// Dispatch on the primitive kind.
fn object_hit(object: &NaiveObject, ray: &Ray, t_min: i64, t_max: i64) -> (r: Option<TraceResult>)
    requires
        object.geometry.wf(),
        ray.wf(),
        0 <= t_min <= t_max <= TMAX,
    ensures
        r is Some ==> ({
            let hit = r->Some_0;
            &&& hit.wf()
            &&& t_min <= hit.distance <= t_max
            &&& hit.geometry_index == object.geometry_index
            &&& dot_raw_spec(ray.direction, hit.normal) <= 0
            &&& crate::vec3::is_near_unit(hit.normal)
            &&& hit.point == ray.at_spec(hit.distance as int)
            &&& object_hit_dist(*object, *ray, t_min as int, t_max as int) == Some(
                hit.distance as int,
            )
            &&& hit_matches_object(*object, *ray, t_min as int, t_max as int, hit)
        }),
        r is None ==> (object_hit_dist(*object, *ray, t_min as int, t_max as int) is None
            || object_degenerate(*object, *ray, t_min as int, t_max as int)),
{
    match &object.geometry {
        NaiveGeometry::Sphere { center, radius } => {
            intersect_sphere(*center, *radius, object.geometry_index, ray, t_min, t_max)
        },
        NaiveGeometry::Quad { origin, u, v, normal, d } => {
            intersect_quad(*origin, *u, *v, *normal, *d, object.geometry_index, ray, t_min, t_max)
        },
        NaiveGeometry::Triangle { p1, p2, p3 } => {
            intersect_triangle(*p1, *p2, *p3, object.geometry_index, ray, t_min, t_max)
        },
    }
}

/// Flip the outward unit normal against the ray: the returned normal
/// always opposes the ray direction (raw dot at most zero), and
/// front_face records which side was struck.
fn face_normal(ray: &Ray, outward: Vec3Fx) -> (r: (Vec3Fx, bool))
    requires
        ray.wf(),
        in_range(outward, SCALE as int),
    ensures
        in_range(r.0, SCALE as int),
        dot_raw_spec(ray.direction, r.0) <= 0,
        r.1 == (dot_raw_spec(ray.direction, outward) < 0),
        r.0 == (if r.1 {
            outward
        } else {
            Vec3Fx { x: (-outward.x) as i64, y: (-outward.y) as i64, z: (-outward.z) as i64 }
        }),
        crate::vec3::is_near_unit(outward) ==> crate::vec3::is_near_unit(r.0),
{
    proof {
        let flipped = Vec3Fx {
            x: (-outward.x) as i64,
            y: (-outward.y) as i64,
            z: (-outward.z) as i64,
        };
        assert(dot_raw_spec(flipped, flipped) == dot_raw_spec(outward, outward))
            by (nonlinear_arith)
            requires
                flipped.x == -outward.x && flipped.y == -outward.y && flipped.z == -outward.z,
                dot_raw_spec(flipped, flipped) == flipped.x * flipped.x + flipped.y * flipped.y
                    + flipped.z * flipped.z,
                dot_raw_spec(outward, outward) == outward.x * outward.x + outward.y * outward.y
                    + outward.z * outward.z,
        ;
    }
    let facing: i128 = ray.direction.dot_raw(outward);
    if facing < 0 {
        (outward, true)
    } else {
        let flipped = outward.neg_v();
        proof {
            assert(dot_raw_spec(ray.direction, flipped) == -dot_raw_spec(ray.direction, outward))
                by (nonlinear_arith)
                requires
                    flipped.x == -outward.x,
                    flipped.y == -outward.y,
                    flipped.z == -outward.z,
                    dot_raw_spec(ray.direction, flipped) == ray.direction.x * flipped.x
                        + ray.direction.y * flipped.y + ray.direction.z * flipped.z,
                    dot_raw_spec(ray.direction, outward) == ray.direction.x * outward.x
                        + ray.direction.y * outward.y + ray.direction.z * outward.z,
        ;
        }
        (flipped, false)
    }
}

/// Spherical-coordinate UV of an outward unit normal:
/// u = (atan2(-z, x) + pi) / 2 pi, v = acos(-y) / pi, both in [0, 1].
fn sphere_uv(n: Vec3Fx) -> (uv: (i64, i64))
    requires
        in_range(n, SCALE as int),
    ensures
        uv.0 == crate::fixed::fx_div_spec(atan2_spec(-n.z as int, n.x as int) + PI_FX,
            TWO_PI_FX as int),
        uv.1 == crate::fixed::fx_div_spec(acos_spec(-n.y as int), PI_FX as int),
        0 <= uv.0 <= SCALE,
        0 <= uv.1 <= SCALE,
{
    let phi: i64 = atan2_fx(-n.z, n.x);
    let theta: i64 = acos_fx(-n.y);
    proof {
        lemma_angle_fraction(phi as int + PI_FX, TWO_PI_FX as int);
        lemma_angle_fraction(theta as int, PI_FX as int);
    }
    let u: i64 = fx_div(phi + PI_FX, TWO_PI_FX);
    let v: i64 = fx_div(theta, PI_FX);
    (u, v)
}

/// A nonnegative angle within its whole range maps to a fraction in
/// [0, 1].
proof fn lemma_angle_fraction(num: int, den: int)
    requires
        0 < den,
        0 <= num <= den,
    ensures
        0 <= crate::fixed::fx_div_spec(num, den) <= SCALE as int,
        s_abs(num) * SCALE as int <= i64::MAX as int * s_abs(den),
        crate::fixed::fx_div_spec(num, den) == div_trunc(num * SCALE as int, den),
{
    assert(s_abs(num * SCALE as int) == num * SCALE as int) by (nonlinear_arith)
        requires
            num >= 0,
            SCALE > 0,
    ;
    assert(num * SCALE as int <= den * SCALE as int) by (nonlinear_arith)
        requires
            0 <= num <= den,
            SCALE > 0,
    ;
    vstd::arithmetic::div_mod::lemma_div_is_ordered(num * SCALE as int, den * SCALE as int, den);
    vstd::arithmetic::div_mod::lemma_div_multiples_vanish(SCALE as int, den);
    assert(den * SCALE as int == SCALE as int * den) by (nonlinear_arith);
    vstd::arithmetic::div_mod::lemma_div_is_ordered(0, num * SCALE as int, den);
    vstd::arithmetic::div_mod::lemma_div_of0(den);
    assert(den * SCALE as int <= i64::MAX as int * den) by (nonlinear_arith)
        requires
            0 < den,
            SCALE as int <= i64::MAX as int,
    ;
}

/// The ray's origin relative to a sphere's center.
pub open spec fn sphere_oc(center: Vec3Fx, ray: Ray) -> Vec3Fx {
    Vec3Fx {
        x: (ray.origin.x - center.x) as i64,
        y: (ray.origin.y - center.y) as i64,
        z: (ray.origin.z - center.z) as i64,
    }
}

/// Coefficients of the sphere quadratic |oc + t * d|^2 = radius^2 in
/// raw SCALE^2 units.
pub open spec fn sphere_quad_a(ray: Ray) -> int {
    dot_raw_spec(ray.direction, ray.direction)
}

pub open spec fn sphere_quad_b(center: Vec3Fx, ray: Ray) -> int {
    2 * dot_raw_spec(sphere_oc(center, ray), ray.direction)
}

pub open spec fn sphere_quad_c(center: Vec3Fx, radius: int, ray: Ray) -> int {
    dot_raw_spec(sphere_oc(center, ray), sphere_oc(center, ray)) - radius * radius
}

pub open spec fn sphere_discriminant(center: Vec3Fx, radius: int, ray: Ray) -> int {
    sphere_quad_b(center, ray) * sphere_quad_b(center, ray) - 4 * (sphere_quad_a(ray)
        * sphere_quad_c(center, radius, ray))
}

/// The two quadratic roots in fixed-point units, rounded toward zero.
pub open spec fn sphere_root_near(center: Vec3Fx, radius: int, ray: Ray) -> int {
    div_trunc(
        (-sphere_quad_b(center, ray) - sqrt_floor(
            sphere_discriminant(center, radius, ray) as nat,
        )) * SCALE as int,
        2 * sphere_quad_a(ray),
    )
}

pub open spec fn sphere_root_far(center: Vec3Fx, radius: int, ray: Ray) -> int {
    div_trunc(
        (-sphere_quad_b(center, ray) + sqrt_floor(
            sphere_discriminant(center, radius, ray) as nat,
        )) * SCALE as int,
        2 * sphere_quad_a(ray),
    )
}

/// The parametric distance the sphere test reports: the nearer root if
/// it lies inside [t_min, t_max], else the farther, else nothing; and
/// nothing for a degenerate direction or a negative discriminant.
pub open spec fn sphere_hit_t(
    center: Vec3Fx,
    radius: int,
    ray: Ray,
    t_min: int,
    t_max: int,
) -> Option<int> {
    if sphere_quad_a(ray) <= 0 {
        None
    } else if sphere_discriminant(center, radius, ray) < 0 {
        None
    } else {
        let tn = sphere_root_near(center, radius, ray);
        let tp = sphere_root_far(center, radius, ray);
        if t_min <= tn && tn <= t_max {
            Some(tn)
        } else if t_min <= tp && tp <= t_max {
            Some(tp)
        } else {
            None
        }
    }
}

/// Sphere intersection: the smaller quadratic root in range wins, else
/// the larger; the normal is the unit radial direction flipped against
/// the ray; UV from spherical coordinates of that outward direction.
/// The distance returned is exactly `sphere_hit_t`; the only hits ever
/// dropped beyond it are fully degenerate ones (a hit point at the
/// very center of the sphere, which has no radial normal).
fn intersect_sphere(
    center: Vec3Fx,
    radius: i64,
    geometry_index: usize,
    ray: &Ray,
    t_min: i64,
    t_max: i64,
) -> (r: Option<TraceResult>)
    requires
        in_range(center, CMAX as int),
        0 <= radius <= CMAX,
        ray.wf(),
        0 <= t_min <= t_max <= TMAX,
    ensures
        r is Some ==> ({
            let hit = r->Some_0;
            &&& hit.wf()
            &&& t_min <= hit.distance <= t_max
            &&& hit.geometry_index == geometry_index
            &&& dot_raw_spec(ray.direction, hit.normal) <= 0
            &&& sphere_hit_t(center, radius as int, *ray, t_min as int, t_max as int) == Some(
                hit.distance as int,
            )
            &&& hit.point == ray.at_spec(hit.distance as int)
            &&& ({
                // the normal is the unit radial direction, flipped to
                // face the ray, and front_face records which side; UV
                // are the spherical coordinates of that direction
                let outward = crate::vec3::unit_of(tri_sub(hit.point, center));
                &&& hit.front_face == (dot_raw_spec(ray.direction, outward) < 0)
                &&& hit.normal == (if hit.front_face {
                    outward
                } else {
                    Vec3Fx {
                        x: (-outward.x) as i64,
                        y: (-outward.y) as i64,
                        z: (-outward.z) as i64,
                    }
                })
                &&& crate::vec3::is_near_unit(hit.normal)
                &&& hit.uv.0 == crate::fixed::fx_div_spec(
                    atan2_spec(-outward.z as int, outward.x as int) + PI_FX,
                    TWO_PI_FX as int,
                )
                &&& hit.uv.1 == crate::fixed::fx_div_spec(
                    acos_spec(-outward.y as int),
                    PI_FX as int,
                )
            })
        }),
        sphere_hit_t(center, radius as int, *ray, t_min as int, t_max as int) is None ==> r
            is None,
        (sphere_hit_t(center, radius as int, *ray, t_min as int, t_max as int) is Some
            && ray.at_spec(
            sphere_hit_t(center, radius as int, *ray, t_min as int, t_max as int)->Some_0,
        ) != center) ==> r is Some,
{
    let oc = ray.origin.sub_v(center);
    proof {
        assert(oc == sphere_oc(center, *ray));
    }
    let a: i128 = ray.direction.dot_raw(ray.direction);
    if a <= 0 {
        return None;
    }
    let half_off: i128 = oc.dot_raw(ray.direction);
    let oc2: i128 = oc.dot_raw(oc);
    proof {
        lemma_sphere_bounds(oc, ray.direction, radius as int, a, half_off, oc2);
    }
    let b: i128 = 2 * half_off;
    let c: i128 = oc2 - (radius as i128) * (radius as i128);
    let discriminant: i128 = b * b - 4 * (a * c);
    if discriminant < 0 {
        return None;
    }
    let sq: i128 = isqrt_u128(discriminant as u128) as i128;
    proof {
        crate::fixed::lemma_sqrt_floor(discriminant as nat);
        assert(sq as int * sq as int <= discriminant as int ==> sq as int <= 0x80000000000000int)
            by (nonlinear_arith)
            requires
                discriminant as int <= 0x4000000000000000000000000000int,
                sq >= 0,
        ;
    }
    proof {
        lemma_wide_scale(-(b as int) - sq, 0x200000000000000int);
        lemma_wide_scale(-(b as int) + sq, 0x200000000000000int);
    }
    let negative_solution: i128 = div_trunc_i128((-b - sq) * (SCALE as i128), 2 * a);
    let positive_solution: i128 = div_trunc_i128((-b + sq) * (SCALE as i128), 2 * a);
    let t_wide: i128 = if t_min as i128 <= negative_solution && negative_solution <= t_max as i128 {
        negative_solution
    } else if t_min as i128 <= positive_solution && positive_solution <= t_max as i128 {
        positive_solution
    } else {
        return None;
    };
    let t: i64 = t_wide as i64;
    let point = ray.at(t);
    let pc = point.sub_v(center);
    match pc.unit_v() {
        None => {
            proof {
                assert(sphere_hit_t(center, radius as int, *ray, t_min as int, t_max as int)
                    == Some(t as int));
                assert(point.x == center.x && point.y == center.y && point.z == center.z);
                assert(ray.at_spec(t as int) == center);
            }
            None
        },
        Some(outward) => {
            proof {
                assert(pc == tri_sub(point, center));
                assert(outward == crate::vec3::unit_of(pc));
            }
            let (normal, front_face) = face_normal(ray, outward);
            let uv = sphere_uv(outward);
            Some(
                TraceResult {
                    distance: t,
                    point,
                    normal,
                    geometry_index,
                    front_face,
                    uv,
                },
            )
        },
    }
}

/// Intermediate bounds of the sphere quadratic, all comfortably inside
/// i128.
proof fn lemma_sphere_bounds(
    oc: Vec3Fx,
    dir: Vec3Fx,
    radius: int,
    a: i128,
    half_off: i128,
    oc2: i128,
)
    requires
        in_range(oc, 0x20000000int),
        in_range(dir, DMAX as int),
        0 <= radius <= CMAX as int,
        a == dot_raw_spec(dir, dir),
        half_off == dot_raw_spec(oc, dir),
        oc2 == dot_raw_spec(oc, oc),
    ensures
        0 <= a <= 0xc0000000000int,
        s_abs(half_off as int) <= 0xc000000000000int,
        0 <= oc2 <= 0xc00000000000000int,
        0 <= radius * radius <= 0x100000000000000int,
        s_abs(2 * half_off as int) <= 0x18000000000000int,
        s_abs(oc2 - radius * radius) <= 0x10000000000000000int,
        s_abs((2 * half_off as int) * (2 * half_off as int)) <= 0x900000000000000000000000000int,
        s_abs(a as int * (oc2 - radius * radius)) <= 0xc00000000000000000000000000int,
        s_abs(4 * (a as int * (oc2 - radius * radius))) <= 0x3000000000000000000000000000int,
        s_abs((2 * half_off as int) * (2 * half_off as int)) + s_abs(
            4 * (a as int * (oc2 - radius * radius)),
        ) <= 0x4000000000000000000000000000int,
{
    lemma_prod_bound(dir.x as int, dir.x as int, DMAX as int);
    lemma_prod_bound(dir.y as int, dir.y as int, DMAX as int);
    lemma_prod_bound(dir.z as int, dir.z as int, DMAX as int);
    assert(dir.x as int * dir.x as int >= 0) by (nonlinear_arith);
    assert(dir.y as int * dir.y as int >= 0) by (nonlinear_arith);
    assert(dir.z as int * dir.z as int >= 0) by (nonlinear_arith);
    lemma_prod_pair(oc.x as int, dir.x as int, 0x20000000int, DMAX as int);
    lemma_prod_pair(oc.y as int, dir.y as int, 0x20000000int, DMAX as int);
    lemma_prod_pair(oc.z as int, dir.z as int, 0x20000000int, DMAX as int);
    lemma_prod_bound(oc.x as int, oc.x as int, 0x20000000int);
    lemma_prod_bound(oc.y as int, oc.y as int, 0x20000000int);
    lemma_prod_bound(oc.z as int, oc.z as int, 0x20000000int);
    assert(oc.x as int * oc.x as int >= 0) by (nonlinear_arith);
    assert(oc.y as int * oc.y as int >= 0) by (nonlinear_arith);
    assert(oc.z as int * oc.z as int >= 0) by (nonlinear_arith);
    assert(0 <= radius * radius <= 0x100000000000000int) by (nonlinear_arith)
        requires
            0 <= radius <= 0x10000000int,
    ;
    let b = 2 * half_off as int;
    assert(s_abs(b * b) <= 0x900000000000000000000000000int) by (nonlinear_arith)
        requires
            s_abs(b) <= 0x18000000000000int,
    ;
    let c = oc2 - radius * radius;
    assert(s_abs(a as int * c) <= 0xc00000000000000000000000000int) by (nonlinear_arith)
        requires
            0 <= a as int <= 0xc0000000000int,
            s_abs(c) <= 0x10000000000000000int,
    ;
}

/// The plane-hit distance of a quad in fixed-point units: where the ray
/// meets the plane with unit normal `normal` and offset `d`.
pub open spec fn quad_plane_t(normal: Vec3Fx, d: int, ray: Ray) -> int {
    div_trunc(
        (d * SCALE as int - dot_raw_spec(normal, ray.origin)) * SCALE as int,
        dot_raw_spec(normal, ray.direction),
    )
}

/// What the quad's plane test reports: nothing for near-parallel rays
/// (denominator within PLANE_EPS_RAW) or a distance out of range.
pub open spec fn quad_hit_t(normal: Vec3Fx, d: int, ray: Ray, t_min: int, t_max: int) -> Option<
    int,
> {
    let denom = dot_raw_spec(normal, ray.direction);
    if -PLANE_EPS_RAW < denom && denom < PLANE_EPS_RAW {
        None
    } else {
        let t = quad_plane_t(normal, d, ray);
        if t_min <= t && t <= t_max {
            Some(t)
        } else {
            None
        }
    }
}

/// The quad's Gram determinant, scaled down once: with the edge dot
/// products brought to SCALE units, (u.u)(v.v) - (u.v)^2.  Positive for
/// independent edges; degenerate quads are rejected on it.
pub open spec fn quad_gram_det(u: Vec3Fx, v: Vec3Fx) -> int {
    let uu = div_trunc(dot_raw_spec(u, u), SCALE as int);
    let vv = div_trunc(dot_raw_spec(v, v), SCALE as int);
    let uv = div_trunc(dot_raw_spec(u, v), SCALE as int);
    uu * vv - uv * uv
}

/// The edge-basis coordinates (a, b) of a hit point: the solution of
/// w == a * u + b * v for w = point - origin, by Cramer's rule over the
/// Gram system, in fixed point.
pub open spec fn quad_basis_a(origin: Vec3Fx, u: Vec3Fx, v: Vec3Fx, point: Vec3Fx) -> int {
    let w = Vec3Fx {
        x: (point.x - origin.x) as i64,
        y: (point.y - origin.y) as i64,
        z: (point.z - origin.z) as i64,
    };
    let vv = div_trunc(dot_raw_spec(v, v), SCALE as int);
    let uv = div_trunc(dot_raw_spec(u, v), SCALE as int);
    let wu = div_trunc(dot_raw_spec(w, u), SCALE as int);
    let wv = div_trunc(dot_raw_spec(w, v), SCALE as int);
    div_trunc((wu * vv - wv * uv) * SCALE as int, quad_gram_det(u, v))
}

pub open spec fn quad_basis_b(origin: Vec3Fx, u: Vec3Fx, v: Vec3Fx, point: Vec3Fx) -> int {
    let w = Vec3Fx {
        x: (point.x - origin.x) as i64,
        y: (point.y - origin.y) as i64,
        z: (point.z - origin.z) as i64,
    };
    let uu = div_trunc(dot_raw_spec(u, u), SCALE as int);
    let uv = div_trunc(dot_raw_spec(u, v), SCALE as int);
    let wu = div_trunc(dot_raw_spec(w, u), SCALE as int);
    let wv = div_trunc(dot_raw_spec(w, v), SCALE as int);
    div_trunc((wv * uu - wu * uv) * SCALE as int, quad_gram_det(u, v))
}

/// Everything the quad test reports: the plane hit of `quad_hit_t`,
/// kept only when the edge basis is nondegenerate and the hit point's
/// basis coordinates lie inside [0, 1].
pub open spec fn quad_hit_full(
    origin: Vec3Fx,
    u: Vec3Fx,
    v: Vec3Fx,
    normal: Vec3Fx,
    d: int,
    ray: Ray,
    t_min: int,
    t_max: int,
) -> Option<(int, int, int)> {
    match quad_hit_t(normal, d, ray, t_min, t_max) {
        None => None,
        Some(t) => {
            if quad_gram_det(u, v) <= 0 {
                None
            } else {
                let point = ray.at_spec(t);
                let a = quad_basis_a(origin, u, v, point);
                let b = quad_basis_b(origin, u, v, point);
                if 0 <= a && a <= SCALE as int && 0 <= b && b <= SCALE as int {
                    Some((t, a, b))
                } else {
                    None
                }
            }
        },
    }
}

/// Quad (parallelogram) intersection: plane hit, then the hit point
/// expressed in the (u, v) edge-vector basis; accepted only with both
/// basis coordinates inside [0, 1], which the contract records.  The
/// distance is exactly `quad_hit_t`, the UV exactly the basis
/// coordinates of the hit point, and a hit is returned if and only if
/// `quad_hit_full` reports one.
fn intersect_quad(
    origin: Vec3Fx,
    u: Vec3Fx,
    v: Vec3Fx,
    normal: Vec3Fx,
    d: i64,
    geometry_index: usize,
    ray: &Ray,
    t_min: i64,
    t_max: i64,
) -> (r: Option<TraceResult>)
    requires
        in_range(origin, 2 * CMAX as int),
        in_range(u, CMAX as int),
        in_range(v, CMAX as int),
        in_range(normal, SCALE as int),
        normal == (Vec3Fx { x: 0, y: 0, z: 0 }) || crate::vec3::is_near_unit(normal),
        s_abs(d as int) <= 0x80000000int,
        ray.wf(),
        0 <= t_min <= t_max <= TMAX,
    ensures
        r is Some ==> ({
            let hit = r->Some_0;
            &&& hit.wf()
            &&& t_min <= hit.distance <= t_max
            &&& hit.geometry_index == geometry_index
            &&& dot_raw_spec(ray.direction, hit.normal) <= 0
            &&& 0 <= hit.uv.0 <= SCALE
            &&& 0 <= hit.uv.1 <= SCALE
            &&& quad_hit_t(normal, d as int, *ray, t_min as int, t_max as int) == Some(
                hit.distance as int,
            )
            &&& hit.point == ray.at_spec(hit.distance as int)
            &&& hit.uv.0 == quad_basis_a(origin, u, v, hit.point)
            &&& hit.uv.1 == quad_basis_b(origin, u, v, hit.point)
            &&& hit.front_face == (dot_raw_spec(ray.direction, normal) < 0)
            &&& hit.normal == (if hit.front_face {
                normal
            } else {
                Vec3Fx { x: (-normal.x) as i64, y: (-normal.y) as i64, z: (-normal.z) as i64 }
            })
            &&& crate::vec3::is_near_unit(hit.normal)
        }),
        (r is Some <==> quad_hit_full(
            origin,
            u,
            v,
            normal,
            d as int,
            *ray,
            t_min as int,
            t_max as int,
        ) is Some),
{
    let denominator: i128 = normal.dot_raw(ray.direction);
    if denominator > -PLANE_EPS_RAW && denominator < PLANE_EPS_RAW {
        return None;
    }
    let n_dot_o: i128 = normal.dot_raw(ray.origin);
    proof {
        lemma_quad_bounds(normal, ray.origin, n_dot_o);
        lemma_prod_pair(normal.x as int, ray.direction.x as int, SCALE as int, DMAX as int);
        lemma_prod_pair(normal.y as int, ray.direction.y as int, SCALE as int, DMAX as int);
        lemma_prod_pair(normal.z as int, ray.direction.z as int, SCALE as int, DMAX as int);
    }
    proof {
        assert(s_abs(d as int * SCALE as int) <= 0x800000000000int) by (nonlinear_arith)
            requires
                s_abs(d as int) <= 0x80000000int,
                SCALE == 65536,
        ;
        lemma_wide_scale(d as int * SCALE as int - n_dot_o, 0x40000000000000int);
    }
    let t_wide: i128 = div_trunc_i128(
        ((d as i128) * (SCALE as i128) - n_dot_o) * (SCALE as i128),
        denominator,
    );
    if !(t_min as i128 <= t_wide && t_wide <= t_max as i128) {
        return None;
    }
    let t: i64 = t_wide as i64;
    proof {
        lemma_edge_dot_bounds(u, v);
    }
    let uu: i128 = div_trunc_i128(u.dot_raw(u), SCALE as i128);
    let vv: i128 = div_trunc_i128(v.dot_raw(v), SCALE as i128);
    let uv: i128 = div_trunc_i128(u.dot_raw(v), SCALE as i128);
    proof {
        lemma_prod_pair_w(uu as int, vv as int, 0x30000000000int, 0x30000000000int);
        lemma_prod_pair_w(uv as int, uv as int, 0x30000000000int, 0x30000000000int);
    }
    let det: i128 = uu * vv - uv * uv;
    if det <= 0 {
        return None;
    }
    let point = ray.at(t);
    let vector_in_plane = point.sub_v(origin);
    proof {
        lemma_plane_basis_bounds(vector_in_plane, u, dot_raw_spec(vector_in_plane, u));
        lemma_plane_basis_bounds(vector_in_plane, v, dot_raw_spec(vector_in_plane, v));
    }
    let wu: i128 = div_trunc_i128(vector_in_plane.dot_raw(u), SCALE as i128);
    let wv: i128 = div_trunc_i128(vector_in_plane.dot_raw(v), SCALE as i128);
    proof {
        lemma_prod_pair_w(wu as int, vv as int, 0x18000000000000000int, 0x30000000000int);
        lemma_prod_pair_w(wv as int, uv as int, 0x18000000000000000int, 0x30000000000int);
        lemma_prod_pair_w(wv as int, uu as int, 0x18000000000000000int, 0x30000000000int);
        lemma_prod_pair_w(wu as int, uv as int, 0x18000000000000000int, 0x30000000000int);
        lemma_wide_scale(
            wu as int * vv as int - wv as int * uv as int,
            0x1000000000000000000000000000int,
        );
        lemma_wide_scale(
            wv as int * uu as int - wu as int * uv as int,
            0x1000000000000000000000000000int,
        );
    }
    let u_coord: i128 = div_trunc_i128((wu * vv - wv * uv) * (SCALE as i128), det);
    let v_coord: i128 = div_trunc_i128((wv * uu - wu * uv) * (SCALE as i128), det);
    if u_coord < 0 || u_coord > SCALE as i128 || v_coord < 0 || v_coord > SCALE as i128 {
        return None;
    }
    proof {
        if normal == (Vec3Fx { x: 0, y: 0, z: 0 }) {
            assert(dot_raw_spec(normal, ray.direction) == 0) by (nonlinear_arith)
                requires
                    normal.x == 0 && normal.y == 0 && normal.z == 0,
                    dot_raw_spec(normal, ray.direction) == normal.x * ray.direction.x + normal.y
                        * ray.direction.y + normal.z * ray.direction.z,
            ;
        }
    }
    let (hit_normal, front_face) = face_normal(ray, normal);
    Some(
        TraceResult {
            distance: t,
            point,
            normal: hit_normal,
            geometry_index,
            front_face,
            uv: (u_coord as i64, v_coord as i64),
        },
    )
}

/// The plane offset of a ray origin against a unit normal stays small.
proof fn lemma_quad_bounds(normal: Vec3Fx, origin: Vec3Fx, n_dot_o: i128)
    requires
        in_range(normal, SCALE as int),
        in_range(origin, CMAX as int),
        n_dot_o == dot_raw_spec(normal, origin),
    ensures
        s_abs(n_dot_o as int) <= 0x30000000000000int,
{
    lemma_prod_pair(normal.x as int, origin.x as int, SCALE as int, 0x10000000int);
    lemma_prod_pair(normal.y as int, origin.y as int, SCALE as int, 0x10000000int);
    lemma_prod_pair(normal.z as int, origin.z as int, SCALE as int, 0x10000000int);
}

/// The dot of a hit-plane offset with an edge, brought to SCALE units,
/// stays well inside i128.
proof fn lemma_plane_basis_bounds(vip: Vec3Fx, edge: Vec3Fx, raw: int)
    requires
        in_range(vip, 0x8000000000000int),
        in_range(edge, CMAX as int),
        raw == dot_raw_spec(vip, edge),
    ensures
        s_abs(raw) <= 0x1800000000000000000000int,
        s_abs(div_trunc(raw, SCALE as int)) <= 0x18000000000000000int,
{
    lemma_prod_pair(vip.x as int, edge.x as int, 0x8000000000000int, 0x10000000int);
    lemma_prod_pair(vip.y as int, edge.y as int, 0x8000000000000int, 0x10000000int);
    lemma_prod_pair(vip.z as int, edge.z as int, 0x8000000000000int, 0x10000000int);
    assert(3 * (0x8000000000000int * 0x10000000int) == SCALE as int * 0x18000000000000000int)
        by (nonlinear_arith)
        requires
            SCALE == 65536,
    ;
    vstd::arithmetic::div_mod::lemma_div_is_ordered(
        s_abs(raw),
        SCALE as int * 0x18000000000000000int,
        SCALE as int,
    );
    vstd::arithmetic::div_mod::lemma_div_multiples_vanish(0x18000000000000000int, SCALE as int);
}

/// Edge-on-edge dot products of a quad, brought to SCALE units, are
/// small.
proof fn lemma_edge_dot_bounds(u: Vec3Fx, v: Vec3Fx)
    requires
        in_range(u, CMAX as int),
        in_range(v, CMAX as int),
    ensures
        s_abs(dot_raw_spec(u, u)) <= 3 * (CMAX as int * CMAX as int),
        s_abs(dot_raw_spec(v, v)) <= 3 * (CMAX as int * CMAX as int),
        s_abs(dot_raw_spec(u, v)) <= 3 * (CMAX as int * CMAX as int),
        s_abs(div_trunc(dot_raw_spec(u, u), SCALE as int)) <= 0x30000000000int,
        s_abs(div_trunc(dot_raw_spec(v, v), SCALE as int)) <= 0x30000000000int,
        s_abs(div_trunc(dot_raw_spec(u, v), SCALE as int)) <= 0x30000000000int,
{
    lemma_prod_pair(u.x as int, u.x as int, CMAX as int, CMAX as int);
    lemma_prod_pair(u.y as int, u.y as int, CMAX as int, CMAX as int);
    lemma_prod_pair(u.z as int, u.z as int, CMAX as int, CMAX as int);
    lemma_prod_pair(v.x as int, v.x as int, CMAX as int, CMAX as int);
    lemma_prod_pair(v.y as int, v.y as int, CMAX as int, CMAX as int);
    lemma_prod_pair(v.z as int, v.z as int, CMAX as int, CMAX as int);
    lemma_prod_pair(u.x as int, v.x as int, CMAX as int, CMAX as int);
    lemma_prod_pair(u.y as int, v.y as int, CMAX as int, CMAX as int);
    lemma_prod_pair(u.z as int, v.z as int, CMAX as int, CMAX as int);
    lemma_edge_dot_one(dot_raw_spec(u, u));
    lemma_edge_dot_one(dot_raw_spec(v, v));
    lemma_edge_dot_one(dot_raw_spec(u, v));
}

proof fn lemma_edge_dot_one(raw: int)
    requires
        s_abs(raw) <= 3 * (CMAX as int * CMAX as int),
    ensures
        s_abs(div_trunc(raw, SCALE as int)) <= 0x30000000000int,
{
    assert(3 * (CMAX as int * CMAX as int) == SCALE as int * 0x30000000000int)
        by (nonlinear_arith)
        requires
            CMAX == 0x10000000,
            SCALE == 65536,
    ;
    vstd::arithmetic::div_mod::lemma_div_is_ordered(
        s_abs(raw),
        SCALE as int * 0x30000000000int,
        SCALE as int,
    );
    vstd::arithmetic::div_mod::lemma_div_multiples_vanish(0x30000000000int, SCALE as int);
}

/// Product of two wide bounded factors, for the Gram arithmetic.
proof fn lemma_prod_pair_w(a: int, b: int, m: int, n: int)
    requires
        s_abs(a) <= m,
        s_abs(b) <= n,
        0 < m,
        0 < n,
        m * n <= 0x1000000000000000000000000000int,
    ensures
        -(m * n) <= a * b <= m * n,
        s_abs(a * b) <= m * n,
{
    assert(s_abs(a * b) <= m * n && -(m * n) <= a * b <= m * n) by (nonlinear_arith)
        requires
            s_abs(a) <= m,
            s_abs(b) <= n,
            0 < m,
            0 < n,
    ;
}

/// Componentwise difference, as the triangle test uses it.
pub open spec fn tri_sub(a: Vec3Fx, b: Vec3Fx) -> Vec3Fx {
    Vec3Fx { x: (a.x - b.x) as i64, y: (a.y - b.y) as i64, z: (a.z - b.z) as i64 }
}

/// Raw cross product as a triple of unbounded integers.
pub open spec fn tri_cross(a: Vec3Fx, b: Vec3Fx) -> (int, int, int) {
    (a.y * b.z - a.z * b.y, a.z * b.x - a.x * b.z, a.x * b.y - a.y * b.x)
}

/// Raw dot product of such a triple with a vector.
pub open spec fn tri_dot(h: (int, int, int), v: Vec3Fx) -> int {
    h.0 * v.x + h.1 * v.y + h.2 * v.z
}

/// What the triangle's edge-determinant test reports: the parametric
/// distance and the barycentric (u, v), or nothing for near-parallel
/// rays, coordinates outside the triangle, or a distance out of range.
pub open spec fn triangle_hit(
    p1: Vec3Fx,
    p2: Vec3Fx,
    p3: Vec3Fx,
    ray: Ray,
    t_min: int,
    t_max: int,
) -> Option<(int, int, int)> {
    let e1 = tri_sub(p2, p1);
    let e2 = tri_sub(p3, p1);
    let h = tri_cross(ray.direction, e2);
    let det = tri_dot(h, e1);
    if -DET_EPS_RAW < det && det < DET_EPS_RAW {
        None
    } else {
        let s = tri_sub(ray.origin, p1);
        let u = div_trunc(tri_dot(h, s) * SCALE as int, det);
        if u < 0 || u > SCALE as int {
            None
        } else {
            let q = tri_cross(s, e1);
            let v = div_trunc(tri_dot(q, ray.direction) * SCALE as int, det);
            if v < 0 || u + v > SCALE as int {
                None
            } else {
                let t = div_trunc(tri_dot(q, e2) * SCALE as int, det);
                if t_min <= t && t <= t_max {
                    Some((t, u, v))
                } else {
                    None
                }
            }
        }
    }
}

/// Triangle intersection by the classic edge-vector determinant test;
/// barycentric (u, v) as the surface UV.  Distance and UV are exactly
/// `triangle_hit`; the only hits dropped beyond it are degenerate ones
/// with a zero face normal, and a `triangle_hit` miss is always a miss.
fn intersect_triangle(
    p1: Vec3Fx,
    p2: Vec3Fx,
    p3: Vec3Fx,
    geometry_index: usize,
    ray: &Ray,
    t_min: i64,
    t_max: i64,
) -> (r: Option<TraceResult>)
    requires
        in_range(p1, CMAX as int),
        in_range(p2, CMAX as int),
        in_range(p3, CMAX as int),
        ray.wf(),
        0 <= t_min <= t_max <= TMAX,
    ensures
        r is Some ==> ({
            let hit = r->Some_0;
            &&& hit.wf()
            &&& t_min <= hit.distance <= t_max
            &&& hit.geometry_index == geometry_index
            &&& dot_raw_spec(ray.direction, hit.normal) <= 0
            &&& 0 <= hit.uv.0 <= SCALE
            &&& 0 <= hit.uv.1 <= SCALE
            &&& triangle_hit(p1, p2, p3, *ray, t_min as int, t_max as int) == Some(
                (hit.distance as int, hit.uv.0 as int, hit.uv.1 as int),
            )
            &&& hit.point == ray.at_spec(hit.distance as int)
            &&& ({
                // the normal is the unit face cross product, flipped to
                // face the ray
                let e1 = tri_sub(p2, p1);
                let e2 = tri_sub(p3, p1);
                let face = Vec3Fx {
                    x: cross_x_spec(e1, e2) as i64,
                    y: cross_y_spec(e1, e2) as i64,
                    z: cross_z_spec(e1, e2) as i64,
                };
                let outward = crate::vec3::unit_of(face);
                &&& hit.front_face == (dot_raw_spec(ray.direction, outward) < 0)
                &&& hit.normal == (if hit.front_face {
                    outward
                } else {
                    Vec3Fx {
                        x: (-outward.x) as i64,
                        y: (-outward.y) as i64,
                        z: (-outward.z) as i64,
                    }
                })
                &&& crate::vec3::is_near_unit(hit.normal)
            })
        }),
        triangle_hit(p1, p2, p3, *ray, t_min as int, t_max as int) is None ==> r is None,
        ({
            let e1 = tri_sub(p2, p1);
            let e2 = tri_sub(p3, p1);
            triangle_hit(p1, p2, p3, *ray, t_min as int, t_max as int) is Some && !(cross_x_spec(
                e1,
                e2,
            ) == 0 && cross_y_spec(e1, e2) == 0 && cross_z_spec(e1, e2) == 0)
        }) ==> r is Some,
{
    let e1 = p2.sub_v(p1);
    let e2 = p3.sub_v(p1);
    let h = cross_wide(ray.direction, e2, 0x200000, 0x20000000);
    let det: i128 = dot_wide(h, e1, 0x4000000000000000, 0x20000000);
    if det > -DET_EPS_RAW && det < DET_EPS_RAW {
        return None;
    }
    let s = ray.origin.sub_v(p1);
    let u_num: i128 = dot_wide(h, s, 0x4000000000000000, 0x20000000);
    proof {
        lemma_wide_scale(u_num as int, 0x2000000000000000000000000int);
    }
    let u_coord: i128 = div_trunc_i128(u_num * (SCALE as i128), det);
    if u_coord < 0 || u_coord > SCALE as i128 {
        return None;
    }
    let q = cross_wide(s, e1, 0x20000000, 0x20000000);
    let v_num: i128 = dot_wide(q, ray.direction, 0x4000000000000000, 0x200000);
    proof {
        lemma_wide_scale(v_num as int, 0x2000000000000000000000000int);
    }
    let v_coord: i128 = div_trunc_i128(v_num * (SCALE as i128), det);
    if v_coord < 0 || u_coord + v_coord > SCALE as i128 {
        return None;
    }
    let t_num: i128 = dot_wide(q, e2, 0x4000000000000000, 0x20000000);
    proof {
        lemma_wide_scale(t_num as int, 0x2000000000000000000000000int);
    }
    let t_wide: i128 = div_trunc_i128(t_num * (SCALE as i128), det);
    if !(t_min as i128 <= t_wide && t_wide <= t_max as i128) {
        return None;
    }
    let t: i64 = t_wide as i64;
    let point = ray.at(t);
    let face = e1.cross_v(e2);
    proof {
        assert(e1 == tri_sub(p2, p1));
        assert(e2 == tri_sub(p3, p1));
    }
    match face.unit_v() {
        None => {
            proof {
                assert(cross_x_spec(e1, e2) == 0 && cross_y_spec(e1, e2) == 0 && cross_z_spec(
                    e1,
                    e2,
                ) == 0);
            }
            None
        },
        Some(outward) => {
            proof {
                assert(face == (Vec3Fx {
                    x: cross_x_spec(e1, e2) as i64,
                    y: cross_y_spec(e1, e2) as i64,
                    z: cross_z_spec(e1, e2) as i64,
                }));
                assert(outward == crate::vec3::unit_of(face));
            }
            let (normal, front_face) = face_normal(ray, outward);
            Some(
                TraceResult {
                    distance: t,
                    point,
                    normal,
                    geometry_index,
                    front_face,
                    uv: (u_coord as i64, v_coord as i64),
                },
            )
        },
    }
}

/// Scaling a bounded wide value by SCALE stays inside i128.
proof fn lemma_wide_scale(raw: int, bound: int)
    requires
        s_abs(raw) <= bound,
        0 <= bound <= 0x4000000000000000000000000000int,
    ensures
        s_abs(raw * SCALE as int) <= bound * SCALE as int,
        bound * SCALE as int <= 0x40000000000000000000000000000000int,
{
    assert(s_abs(raw * SCALE as int) == s_abs(raw) * SCALE as int)
        by (nonlinear_arith)
        requires
            SCALE > 0,
    ;
    assert(s_abs(raw) * SCALE as int <= bound * SCALE as int) by (nonlinear_arith)
        requires
            s_abs(raw) <= bound,
            SCALE > 0,
    ;
    assert(bound * SCALE as int <= 0x40000000000000000000000000000000int) by (nonlinear_arith)
        requires
            0 <= bound <= 0x4000000000000000000000000000int,
            SCALE == 65536,
    ;
}

/// Raw cross product (SCALE^2 units) of two bounded vectors, kept wide.
fn cross_wide(a: Vec3Fx, b: Vec3Fx, bound_a: i64, bound_b: i64) -> (r: (i128, i128, i128))
    requires
        0 < bound_a <= 0x4000000000000000int,
        0 < bound_b <= 0x4000000000000000int,
        bound_a as int * bound_b as int <= 0x1000000000000000000000000000int,
        in_range(a, bound_a as int),
        in_range(b, bound_b as int),
    ensures
        r.0 == a.y * b.z - a.z * b.y,
        r.1 == a.z * b.x - a.x * b.z,
        r.2 == a.x * b.y - a.y * b.x,
        s_abs(r.0 as int) <= 2 * (bound_a as int * bound_b as int),
        s_abs(r.1 as int) <= 2 * (bound_a as int * bound_b as int),
        s_abs(r.2 as int) <= 2 * (bound_a as int * bound_b as int),
{
    proof {
        lemma_prod_pair(a.y as int, b.z as int, bound_a as int, bound_b as int);
        lemma_prod_pair(a.z as int, b.y as int, bound_a as int, bound_b as int);
        lemma_prod_pair(a.z as int, b.x as int, bound_a as int, bound_b as int);
        lemma_prod_pair(a.x as int, b.z as int, bound_a as int, bound_b as int);
        lemma_prod_pair(a.x as int, b.y as int, bound_a as int, bound_b as int);
        lemma_prod_pair(a.y as int, b.x as int, bound_a as int, bound_b as int);
    }
    let rx: i128 = (a.y as i128) * (b.z as i128) - (a.z as i128) * (b.y as i128);
    let ry: i128 = (a.z as i128) * (b.x as i128) - (a.x as i128) * (b.z as i128);
    let rz: i128 = (a.x as i128) * (b.y as i128) - (a.y as i128) * (b.x as i128);
    (rx, ry, rz)
}

/// Raw dot product of a wide vector with a bounded vector, kept wide.
fn dot_wide(h: (i128, i128, i128), v: Vec3Fx, bound_h: i128, bound_v: i64) -> (r: i128)
    requires
        0 < bound_h <= 0x4000000000000000000000int,
        0 < bound_v <= 0x4000000000000000int,
        bound_h as int * bound_v as int <= 0x4000000000000000000000000000int,
        s_abs(h.0 as int) <= bound_h as int,
        s_abs(h.1 as int) <= bound_h as int,
        s_abs(h.2 as int) <= bound_h as int,
        in_range(v, bound_v as int),
    ensures
        r == h.0 * v.x + h.1 * v.y + h.2 * v.z,
        s_abs(r as int) <= 3 * (bound_h as int * bound_v as int),
{
    proof {
        lemma_prod_pair(h.0 as int, v.x as int, bound_h as int, bound_v as int);
        lemma_prod_pair(h.1 as int, v.y as int, bound_h as int, bound_v as int);
        lemma_prod_pair(h.2 as int, v.z as int, bound_h as int, bound_v as int);
    }
    h.0 * (v.x as i128) + h.1 * (v.y as i128) + h.2 * (v.z as i128)
}

/// Product of two differently bounded factors.
proof fn lemma_prod_pair(a: int, b: int, m: int, n: int)
    requires
        s_abs(a) <= m,
        s_abs(b) <= n,
        0 < m,
        0 < n,
    ensures
        s_abs(a * b) <= m * n,
        -(m * n) <= a * b <= m * n,
{
    assert(s_abs(a * b) <= m * n && -(m * n) <= a * b <= m * n) by (nonlinear_arith)
        requires
            s_abs(a) <= m,
            s_abs(b) <= n,
            0 < m,
            0 < n,
    ;
}

} // verus!
