//! Scene data model: rays, shapes, and the geometry list.
//!
//! All coordinates are fixed-point (units of 1/SCALE).  A well-formed
//! scene keeps every coordinate within CMAX and every ray direction
//! within DMAX, which is what lets the intersection math stay exact in
//! 128-bit intermediates.

use vstd::prelude::*;

use crate::fixed::{fx_mul, fx_mul_spec, s_abs, SCALE};
use crate::material::MaterialType;
use crate::vec3::{in_range, Vec3Fx};

verus! {

/// Largest coordinate magnitude of a well-formed scene: 4096.0 units.
pub const CMAX: i64 = 0x10000000;

/// Largest ray-direction component magnitude: 32.0 units.
pub const DMAX: i64 = 0x200000;

/// Largest accepted parametric hit distance.
pub const TMAX: i64 = 0x100000000000;

#[derive(Clone, Copy, Debug, PartialEq, Eq, Structural)]
pub struct Ray {
    pub origin: Vec3Fx,
    pub direction: Vec3Fx,
}

impl Ray {
    pub open spec fn wf(self) -> bool {
        &&& in_range(self.origin, CMAX as int)
        &&& in_range(self.direction, DMAX as int)
    }

    pub fn new(origin: Vec3Fx, direction: Vec3Fx) -> (r: Ray)
        ensures
            r.origin == origin,
            r.direction == direction,
    {
        Ray { origin, direction }
    }

    /// The point at parameter t: origin + (direction * t) / SCALE.
    pub open spec fn at_spec(self, t: int) -> Vec3Fx {
        Vec3Fx {
            x: (self.origin.x + fx_mul_spec(self.direction.x as int, t)) as i64,
            y: (self.origin.y + fx_mul_spec(self.direction.y as int, t)) as i64,
            z: (self.origin.z + fx_mul_spec(self.direction.z as int, t)) as i64,
        }
    }

    pub fn at(&self, t: i64) -> (p: Vec3Fx)
        requires
            self.wf(),
            0 <= t <= TMAX,
        ensures
            p == self.at_spec(t as int),
            p.x == self.origin.x + fx_mul_spec(self.direction.x as int, t as int),
            p.y == self.origin.y + fx_mul_spec(self.direction.y as int, t as int),
            p.z == self.origin.z + fx_mul_spec(self.direction.z as int, t as int),
            in_range(p, 0x4000000000000int),
    {
        proof {
            lemma_at_bounds(self.direction.x as int, t as int);
            lemma_at_bounds(self.direction.y as int, t as int);
            lemma_at_bounds(self.direction.z as int, t as int);
        }
        let dx: i64 = fx_mul(self.direction.x, t);
        let dy: i64 = fx_mul(self.direction.y, t);
        let dz: i64 = fx_mul(self.direction.z, t);
        Vec3Fx { x: self.origin.x + dx, y: self.origin.y + dy, z: self.origin.z + dz }
    }
}

/// A direction component times a distance stays well inside the
/// fixed-point multiplication domain, and the product term is small.
proof fn lemma_at_bounds(d: int, t: int)
    requires
        -(DMAX as int) <= d <= DMAX as int,
        0 <= t <= TMAX as int,
    ensures
        s_abs(d) * s_abs(t) <= i64::MAX as int * SCALE as int,
        s_abs(fx_mul_spec(d, t)) <= 0x2000000000000int,
{
    assert(s_abs(d) * s_abs(t) <= DMAX as int * TMAX as int) by (nonlinear_arith)
        requires
            0 <= s_abs(d) <= DMAX as int,
            0 <= s_abs(t) <= TMAX as int,
    ;
    assert(s_abs(d * t) == s_abs(d) * s_abs(t)) by (nonlinear_arith);
    vstd::arithmetic::div_mod::lemma_div_is_ordered(
        s_abs(d * t),
        DMAX as int * TMAX as int,
        SCALE as int,
    );
    assert(DMAX as int * TMAX as int == SCALE as int * 0x2000000000000int) by (nonlinear_arith)
        requires
            DMAX == 0x200000,
            TMAX == 0x100000000000,
            SCALE == 65536,
    ;
    vstd::arithmetic::div_mod::lemma_div_multiples_vanish(0x2000000000000int, SCALE as int);
    assert(s_abs(fx_mul_spec(d, t)) == s_abs(d * t) / SCALE as int);
    assert(DMAX as int * TMAX as int <= i64::MAX as int * SCALE as int) by (nonlinear_arith)
        requires
            DMAX == 0x200000,
            TMAX == 0x100000000000,
            SCALE == 65536,
    ;
}

/// One triangle mesh: vertices, index triples, optional texture
/// coordinates per vertex.
#[derive(Clone, Debug)]
pub struct TriangleMeshGeometry {
    pub verts: Vec<Vec3Fx>,
    pub indices: Vec<(u32, u32, u32)>,
    pub tex_coords: Vec<(i64, i64)>,
}

impl TriangleMeshGeometry {
    /// Every vertex in range and every index triple within the vertex list.
    pub open spec fn wf(self) -> bool {
        &&& forall|i: int| 0 <= i < self.verts@.len() ==> in_range(self.verts@[i], CMAX as int)
        &&& forall|i: int|
            0 <= i < self.indices@.len() ==> {
                &&& (self.indices@[i].0 as int) < self.verts@.len()
                &&& (self.indices@[i].1 as int) < self.verts@.len()
                &&& (self.indices@[i].2 as int) < self.verts@.len()
            }
    }
}

impl TriangleMeshGeometry {
    /// Runtime test of `wf`: surfaces malformed meshes (out-of-range
    /// vertices, dangling indices) at load time, not at render time.
    pub fn check_wf(&self) -> (r: bool)
        ensures
            r == self.wf(),
    {
        let vcount = self.verts.len();
        let mut i: usize = 0;
        while i < vcount
            invariant
                i <= vcount,
                vcount == self.verts@.len(),
                forall|k: int| 0 <= k < i ==> in_range(self.verts@[k], CMAX as int),
            decreases vcount - i,
        {
            if !self.verts[i].check_in_range(CMAX) {
                return false;
            }
            i += 1;
        }
        let icount = self.indices.len();
        let mut j: usize = 0;
        while j < icount
            invariant
                j <= icount,
                vcount == self.verts@.len(),
                icount == self.indices@.len(),
                forall|k: int|
                    0 <= k < j ==> {
                        &&& (self.indices@[k].0 as int) < vcount
                        &&& (self.indices@[k].1 as int) < vcount
                        &&& (self.indices@[k].2 as int) < vcount
                    },
            decreases icount - j,
        {
            let (a, b, c) = self.indices[j];
            if !((a as usize) < vcount && (b as usize) < vcount && (c as usize) < vcount) {
                return false;
            }
            j += 1;
        }
        true
    }
}

/// The shapes the tracers understand.
#[derive(Clone, Debug)]
pub enum GeometryType {
    Sphere { center: Vec3Fx, radius: i64 },
    Quad { origin: Vec3Fx, u: Vec3Fx, v: Vec3Fx },
    TriangleMesh(TriangleMeshGeometry),
    ObliqueBox { origin: Vec3Fx, u: Vec3Fx, v: Vec3Fx, w: Vec3Fx },
}

impl GeometryType {
    pub open spec fn wf(self) -> bool {
        match self {
            GeometryType::Sphere { center, radius } => {
                &&& in_range(center, CMAX as int)
                &&& 0 <= radius <= CMAX
            },
            GeometryType::Quad { origin, u, v } => {
                &&& in_range(origin, CMAX as int)
                &&& in_range(u, CMAX as int)
                &&& in_range(v, CMAX as int)
            },
            GeometryType::TriangleMesh(mesh) => mesh.wf(),
            GeometryType::ObliqueBox { origin, u, v, w } => {
                &&& in_range(origin, CMAX as int)
                &&& in_range(u, CMAX as int)
                &&& in_range(v, CMAX as int)
                &&& in_range(w, CMAX as int)
            },
        }
    }
}

/// A shape paired with its surface material.  The position of a
/// Geometry in the world's list is its stable index: every trace result
/// refers to its material through that index alone.
#[derive(Clone, Debug)]
pub struct Geometry {
    pub geometry_type: GeometryType,
    pub material: MaterialType,
}

impl GeometryType {
    /// Runtime test of `wf`.
    pub fn check_wf(&self) -> (r: bool)
        ensures
            r == self.wf(),
    {
        match self {
            GeometryType::Sphere { center, radius } => {
                center.check_in_range(CMAX) && 0 <= *radius && *radius <= CMAX
            },
            GeometryType::Quad { origin, u, v } => {
                origin.check_in_range(CMAX) && u.check_in_range(CMAX) && v.check_in_range(CMAX)
            },
            GeometryType::TriangleMesh(mesh) => mesh.check_wf(),
            GeometryType::ObliqueBox { origin, u, v, w } => {
                origin.check_in_range(CMAX) && u.check_in_range(CMAX) && v.check_in_range(CMAX)
                    && w.check_in_range(CMAX)
            },
        }
    }
}

impl Geometry {
    pub open spec fn wf(self) -> bool {
        &&& self.geometry_type.wf()
        &&& self.material.wf()
    }

    /// Runtime test of `wf`.
    pub fn check_wf(&self) -> (r: bool)
        ensures
            r == self.wf(),
    {
        self.geometry_type.check_wf() && self.material.check_wf()
    }
}

/// The immutable scene description: an ordered list of geometries.
#[derive(Clone, Debug)]
pub struct World {
    pub geometry: Vec<Geometry>,
}

impl World {
    pub open spec fn wf(self) -> bool {
        forall|i: int| 0 <= i < self.geometry@.len() ==> self.geometry@[i].wf()
    }

    /// Runtime test of `wf`: the library's scene constructor insists on a
    /// well-formed world, and an unverified caller establishes that here.
    pub fn check_wf(&self) -> (r: bool)
        ensures
            r == self.wf(),
    {
        let len = self.geometry.len();
        let mut i: usize = 0;
        while i < len
            invariant
                i <= len,
                len == self.geometry@.len(),
                forall|k: int| 0 <= k < i ==> self.geometry@[k].wf(),
            decreases len - i,
        {
            if !self.geometry[i].check_wf() {
                return false;
            }
            i += 1;
        }
        true
    }
}

} // verus!
