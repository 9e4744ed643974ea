//! Fixed-point 3D vectors.
//!
//! Components are integers in units of 1/SCALE (see `fixed`).  Products
//! of two fixed-point values carry SCALE^2 units; `dot_raw` keeps that
//! wide form in an i128 so that intersection math can stay exact and
//! divide back down only once.

use vstd::prelude::*;

use crate::fixed::{div_trunc, div_trunc_i128, fx_mul, fx_mul_spec, isqrt_u128, s_abs, sqrt_floor, SCALE};

verus! {

#[derive(Clone, Copy, Debug, PartialEq, Eq, Structural)]
pub struct Vec3Fx {
    pub x: i64,
    pub y: i64,
    pub z: i64,
}

/// Every component within [-m, m].
pub open spec fn in_range(v: Vec3Fx, m: int) -> bool {
    &&& -m <= v.x <= m
    &&& -m <= v.y <= m
    &&& -m <= v.z <= m
}

/// Dot product in raw SCALE^2 units (no rescaling).
pub open spec fn dot_raw_spec(a: Vec3Fx, b: Vec3Fx) -> int {
    a.x * b.x + a.y * b.y + a.z * b.z
}

/// Dot product rescaled to SCALE units, truncated toward zero.
pub open spec fn dot_spec(a: Vec3Fx, b: Vec3Fx) -> int {
    div_trunc(dot_raw_spec(a, b), SCALE as int)
}

/// Cross product components, rescaled to SCALE units.
pub open spec fn cross_x_spec(a: Vec3Fx, b: Vec3Fx) -> int {
    div_trunc(a.y * b.z - a.z * b.y, SCALE as int)
}

pub open spec fn cross_y_spec(a: Vec3Fx, b: Vec3Fx) -> int {
    div_trunc(a.z * b.x - a.x * b.z, SCALE as int)
}

pub open spec fn cross_z_spec(a: Vec3Fx, b: Vec3Fx) -> int {
    div_trunc(a.x * b.y - a.y * b.x, SCALE as int)
}

/// Euclidean length in SCALE units: the floor square root of the raw
/// (SCALE^2-unit) squared length.
pub open spec fn len_spec(v: Vec3Fx) -> int {
    sqrt_floor(dot_raw_spec(v, v) as nat) as int
}

/// The unit vector of v: each component (v * SCALE) / len, truncated.
pub open spec fn unit_x_spec(v: Vec3Fx) -> int {
    div_trunc(v.x * SCALE as int, len_spec(v))
}

pub open spec fn unit_y_spec(v: Vec3Fx) -> int {
    div_trunc(v.y * SCALE as int, len_spec(v))
}

pub open spec fn unit_z_spec(v: Vec3Fx) -> int {
    div_trunc(v.z * SCALE as int, len_spec(v))
}

/// The unit vector of v, assembled from the componentwise specs.
pub open spec fn unit_of(v: Vec3Fx) -> Vec3Fx {
    Vec3Fx { x: unit_x_spec(v) as i64, y: unit_y_spec(v) as i64, z: unit_z_spec(v) as i64 }
}

/// Within a factor of two of unit length: what normalization guarantees
/// of every nonzero input, rounding included.
pub open spec fn is_near_unit(v: Vec3Fx) -> bool {
    SCALE as int * SCALE as int / 4 <= dot_raw_spec(v, v) <= 3 * (SCALE as int * SCALE as int)
}

impl Vec3Fx {
    /// Runtime test of `in_range`, for callers outside the proofs.
    pub fn check_in_range(self, m: i64) -> (r: bool)
        requires
            m >= 0,
        ensures
            r == in_range(self, m as int),
    {
        -m <= self.x && self.x <= m && -m <= self.y && self.y <= m && -m <= self.z && self.z <= m
    }

    pub fn zero() -> (v: Vec3Fx)
        ensures
            v == (Vec3Fx { x: 0, y: 0, z: 0 }),
    {
        Vec3Fx { x: 0, y: 0, z: 0 }
    }

    pub fn add_v(self, o: Vec3Fx) -> (r: Vec3Fx)
        requires
            in_range(self, 0x2000000000000000),
            in_range(o, 0x2000000000000000),
        ensures
            r.x == self.x + o.x,
            r.y == self.y + o.y,
            r.z == self.z + o.z,
    {
        Vec3Fx { x: self.x + o.x, y: self.y + o.y, z: self.z + o.z }
    }

    pub fn sub_v(self, o: Vec3Fx) -> (r: Vec3Fx)
        requires
            in_range(self, 0x2000000000000000),
            in_range(o, 0x2000000000000000),
        ensures
            r.x == self.x - o.x,
            r.y == self.y - o.y,
            r.z == self.z - o.z,
    {
        Vec3Fx { x: self.x - o.x, y: self.y - o.y, z: self.z - o.z }
    }

    pub fn neg_v(self) -> (r: Vec3Fx)
        requires
            in_range(self, 0x2000000000000000),
        ensures
            r.x == -self.x,
            r.y == -self.y,
            r.z == -self.z,
    {
        Vec3Fx { x: -self.x, y: -self.y, z: -self.z }
    }

    /// Componentwise fixed-point scaling by t.
    pub fn scale_v(self, t: i64) -> (r: Vec3Fx)
        requires
            s_abs(self.x as int) * s_abs(t as int) <= i64::MAX as int * SCALE as int,
            s_abs(self.y as int) * s_abs(t as int) <= i64::MAX as int * SCALE as int,
            s_abs(self.z as int) * s_abs(t as int) <= i64::MAX as int * SCALE as int,
        ensures
            r.x == fx_mul_spec(self.x as int, t as int),
            r.y == fx_mul_spec(self.y as int, t as int),
            r.z == fx_mul_spec(self.z as int, t as int),
    {
        Vec3Fx { x: fx_mul(self.x, t), y: fx_mul(self.y, t), z: fx_mul(self.z, t) }
    }

    /// Raw dot product in SCALE^2 units, exact.
    pub fn dot_raw(self, o: Vec3Fx) -> (r: i128)
        requires
            in_range(self, 0x4000000000000000),
            in_range(o, 0x4000000000000000),
        ensures
            r == dot_raw_spec(self, o),
    {
        proof {
            lemma_prod_bound(self.x as int, o.x as int, 0x4000000000000000);
            lemma_prod_bound(self.y as int, o.y as int, 0x4000000000000000);
            lemma_prod_bound(self.z as int, o.z as int, 0x4000000000000000);
        }
        (self.x as i128) * (o.x as i128) + (self.y as i128) * (o.y as i128) + (self.z as i128)
            * (o.z as i128)
    }

    /// Dot product in SCALE units, truncated toward zero.
    pub fn dot_v(self, o: Vec3Fx) -> (r: i64)
        requires
            in_range(self, 0x4000000000),
            in_range(o, 0x4000000000),
        ensures
            r == dot_spec(self, o),
            s_abs(r as int) <= 3 * (0x1000000000000000int),
    {
        let raw: i128 = self.dot_raw(o);
        proof {
            lemma_prod_bound(self.x as int, o.x as int, 0x4000000000);
            lemma_prod_bound(self.y as int, o.y as int, 0x4000000000);
            lemma_prod_bound(self.z as int, o.z as int, 0x4000000000);
        }
        let q: i128 = div_trunc_i128(raw, SCALE as i128);
        proof {
            vstd::arithmetic::div_mod::lemma_div_is_ordered(
                s_abs(raw as int),
                0x30000000000000000000int,
                65536,
            );
            assert(s_abs(q as int) <= 0x3000000000000000int);
        }
        q as i64
    }

    /// Cross product in SCALE units, truncated toward zero.
    pub fn cross_v(self, o: Vec3Fx) -> (r: Vec3Fx)
        requires
            in_range(self, 0x4000000000),
            in_range(o, 0x4000000000),
        ensures
            r.x == cross_x_spec(self, o),
            r.y == cross_y_spec(self, o),
            r.z == cross_z_spec(self, o),
            in_range(r, 0x2000000000000000int),
    {
        proof {
            lemma_prod_bound(self.y as int, o.z as int, 0x4000000000);
            lemma_prod_bound(self.z as int, o.y as int, 0x4000000000);
            lemma_prod_bound(self.z as int, o.x as int, 0x4000000000);
            lemma_prod_bound(self.x as int, o.z as int, 0x4000000000);
            lemma_prod_bound(self.x as int, o.y as int, 0x4000000000);
            lemma_prod_bound(self.y as int, o.x as int, 0x4000000000);
        }
        let rx: i128 = (self.y as i128) * (o.z as i128) - (self.z as i128) * (o.y as i128);
        let ry: i128 = (self.z as i128) * (o.x as i128) - (self.x as i128) * (o.z as i128);
        let rz: i128 = (self.x as i128) * (o.y as i128) - (self.y as i128) * (o.x as i128);
        let qx: i128 = div_trunc_i128(rx, SCALE as i128);
        let qy: i128 = div_trunc_i128(ry, SCALE as i128);
        let qz: i128 = div_trunc_i128(rz, SCALE as i128);
        proof {
            vstd::arithmetic::div_mod::lemma_div_is_ordered(
                s_abs(rx as int),
                0x20000000000000000000int,
                65536,
            );
            vstd::arithmetic::div_mod::lemma_div_is_ordered(
                s_abs(ry as int),
                0x20000000000000000000int,
                65536,
            );
            vstd::arithmetic::div_mod::lemma_div_is_ordered(
                s_abs(rz as int),
                0x20000000000000000000int,
                65536,
            );
            assert(s_abs(qx as int) <= 0x2000000000000000int);
            assert(s_abs(qy as int) <= 0x2000000000000000int);
            assert(s_abs(qz as int) <= 0x2000000000000000int);
        }
        Vec3Fx { x: qx as i64, y: qy as i64, z: qz as i64 }
    }

    /// Length in SCALE units (floor).
    pub fn length(self) -> (r: i64)
        requires
            in_range(self, 0x4000000000000000),
        ensures
            r == len_spec(self),
            r >= 0,
    {
        proof {
            lemma_prod_bound(self.x as int, self.x as int, 0x4000000000000000);
            lemma_prod_bound(self.y as int, self.y as int, 0x4000000000000000);
            lemma_prod_bound(self.z as int, self.z as int, 0x4000000000000000);
            assert(self.x as int * self.x as int >= 0) by (nonlinear_arith);
            assert(self.y as int * self.y as int >= 0) by (nonlinear_arith);
            assert(self.z as int * self.z as int >= 0) by (nonlinear_arith);
        }
        let raw: i128 = self.dot_raw(self);
        let r: u128 = isqrt_u128(raw as u128);
        proof {
            crate::fixed::lemma_sqrt_floor(raw as nat);
            assert(r <= i64::MAX) by (nonlinear_arith)
                requires
                    r * r <= raw as int,
                    raw as int <= 0x30000000000000000000000000000000int,
                    r >= 0,
            ;
        }
        r as i64
    }

    /// The unit vector of self, or None for the zero vector.  The result
    /// has every component within SCALE of zero.
    pub fn unit_v(self) -> (r: Option<Vec3Fx>)
        requires
            in_range(self, 0x4000000000000000),
        ensures
            r is Some <==> !(self.x == 0 && self.y == 0 && self.z == 0),
            r is Some ==> ({
                let u = r->Some_0;
                &&& u == unit_of(self)
                &&& u.x == unit_x_spec(self)
                &&& u.y == unit_y_spec(self)
                &&& u.z == unit_z_spec(self)
                &&& in_range(u, SCALE as int)
                &&& is_near_unit(u)
            }),
    {
        let len: i64 = self.length();
        if len == 0 {
            proof {
                lemma_zero_len(self);
            }
            None
        } else {
            proof {
                lemma_unit_near(self);
                lemma_component_le_len(self);
                lemma_unit_in_range(self.x as int, len as int);
                lemma_unit_in_range(self.y as int, len as int);
                lemma_unit_in_range(self.z as int, len as int);
                if self.x == 0 && self.y == 0 && self.z == 0 {
                    assert(dot_raw_spec(self, self) == 0) by (nonlinear_arith)
                        requires
                            self.x == 0 && self.y == 0 && self.z == 0,
                    ;
                    assert(len_spec(self) == 0);
                }
            }
            let ux: i128 = div_trunc_i128((self.x as i128) * (SCALE as i128), len as i128);
            let uy: i128 = div_trunc_i128((self.y as i128) * (SCALE as i128), len as i128);
            let uz: i128 = div_trunc_i128((self.z as i128) * (SCALE as i128), len as i128);
            Some(Vec3Fx { x: ux as i64, y: uy as i64, z: uz as i64 })
        }
    }
}

/// |a| <= m and |b| <= m bound the product by m * m.
pub proof fn lemma_prod_bound(a: int, b: int, m: int)
    requires
        -m <= a <= m,
        -m <= b <= m,
        m >= 0,
    ensures
        -(m * m) <= a * b <= m * m,
{
    assert(-(m * m) <= a * b <= m * m) by (nonlinear_arith)
        requires
            -m <= a <= m,
            -m <= b <= m,
            m >= 0,
    ;
}

/// Only the zero vector has length zero.
proof fn lemma_zero_len(v: Vec3Fx)
    requires
        len_spec(v) == 0,
    ensures
        v.x == 0 && v.y == 0 && v.z == 0,
{
    let raw = dot_raw_spec(v, v);
    assert(v.x * v.x >= 0 && v.y * v.y >= 0 && v.z * v.z >= 0) by (nonlinear_arith);
    crate::fixed::lemma_sqrt_floor(raw as nat);
    let l = sqrt_floor(raw as nat);
    assert(l == 0);
    assert((l + 1) * (l + 1) == 1) by (nonlinear_arith)
        requires
            l == 0,
    ;
    assert(raw < 1);
    assert(v.x * v.x == 0 && v.y * v.y == 0 && v.z * v.z == 0);
    assert(v.x == 0 && v.y == 0 && v.z == 0) by (nonlinear_arith)
        requires
            v.x * v.x == 0 && v.y * v.y == 0 && v.z * v.z == 0,
    ;
}

/// No component of a vector exceeds the vector's length.
proof fn lemma_component_le_len(v: Vec3Fx)
    ensures
        s_abs(v.x as int) <= len_spec(v),
        s_abs(v.y as int) <= len_spec(v),
        s_abs(v.z as int) <= len_spec(v),
{
    let raw = dot_raw_spec(v, v);
    assert(v.x * v.x >= 0 && v.y * v.y >= 0 && v.z * v.z >= 0) by (nonlinear_arith);
    crate::fixed::lemma_sqrt_floor(raw as nat);
    let l = sqrt_floor(raw as nat);
    assert(s_abs(v.x as int) <= l) by (nonlinear_arith)
        requires
            l * l <= raw,
            raw < (l + 1) * (l + 1),
            raw >= v.x * v.x,
            l >= 0,
    ;
    assert(s_abs(v.y as int) <= l) by (nonlinear_arith)
        requires
            l * l <= raw,
            raw < (l + 1) * (l + 1),
            raw >= v.y * v.y,
            l >= 0,
    ;
    assert(s_abs(v.z as int) <= l) by (nonlinear_arith)
        requires
            l * l <= raw,
            raw < (l + 1) * (l + 1),
            raw >= v.z * v.z,
            l >= 0,
    ;
}

/// The normalized form of a nonzero vector is within a factor of two of
/// unit length: its largest component alone contributes at least
/// (SCALE/2)^2 to the squared length, and each component is within
/// SCALE.
proof fn lemma_unit_near(v: Vec3Fx)
    requires
        len_spec(v) >= 1,
        in_range(v, 0x4000000000000000),
    ensures
        is_near_unit(unit_of(v)),
{
    let len = len_spec(v);
    let u = unit_of(v);
    lemma_component_le_len(v);
    lemma_unit_in_range(v.x as int, len);
    lemma_unit_in_range(v.y as int, len);
    lemma_unit_in_range(v.z as int, len);
    let raw = dot_raw_spec(v, v);
    assert(v.x * v.x >= 0 && v.y * v.y >= 0 && v.z * v.z >= 0) by (nonlinear_arith);
    crate::fixed::lemma_sqrt_floor(raw as nat);
    assert(len * len <= raw);
    // pick the largest component m: raw <= 3 m^2, so len < 2 m
    let ax = s_abs(v.x as int);
    let ay = s_abs(v.y as int);
    let az = s_abs(v.z as int);
    let m = if ax >= ay && ax >= az {
        ax
    } else if ay >= az {
        ay
    } else {
        az
    };
    assert(raw <= 3 * (m * m)) by (nonlinear_arith)
        requires
            raw == v.x * v.x + v.y * v.y + v.z * v.z,
            s_abs(v.x as int) <= m,
            s_abs(v.y as int) <= m,
            s_abs(v.z as int) <= m,
            m >= 0,
    ;
    assert(len <= 2 * m) by (nonlinear_arith)
        requires
            len * len <= raw,
            raw <= 3 * (m * m),
            len >= 0,
            m >= 0,
    ;
    // the unit component of the largest input component is at least S/2
    vstd::arithmetic::div_mod::lemma_div_is_ordered_by_denominator(
        m * SCALE as int,
        len,
        2 * m,
    );
    assert(m * SCALE as int == (2 * m) * (SCALE as int / 2)) by (nonlinear_arith)
        requires
            SCALE == 65536,
    ;
    vstd::arithmetic::div_mod::lemma_div_multiples_vanish(SCALE as int / 2, 2 * m);
    assert((2 * m) * (SCALE as int / 2) == (2 * m) * (SCALE as int / 2));
    assert((m * SCALE as int) / len >= SCALE as int / 2);
    // relate that quotient to the matching unit component
    assert(s_abs(v.x as int * SCALE as int) == s_abs(v.x as int) * SCALE as int)
        by (nonlinear_arith)
        requires
            SCALE > 0,
    ;
    assert(s_abs(v.y as int * SCALE as int) == s_abs(v.y as int) * SCALE as int)
        by (nonlinear_arith)
        requires
            SCALE > 0,
    ;
    assert(s_abs(v.z as int * SCALE as int) == s_abs(v.z as int) * SCALE as int)
        by (nonlinear_arith)
        requires
            SCALE > 0,
    ;
    assert(s_abs(unit_x_spec(v)) == s_abs(v.x as int) * SCALE as int / len);
    assert(s_abs(unit_y_spec(v)) == s_abs(v.y as int) * SCALE as int / len);
    assert(s_abs(unit_z_spec(v)) == s_abs(v.z as int) * SCALE as int / len);
    assert(s_abs(unit_x_spec(v)) >= SCALE as int / 2 || s_abs(unit_y_spec(v)) >= SCALE as int / 2
        || s_abs(unit_z_spec(v)) >= SCALE as int / 2);
    // squared length bounds of the normalized vector
    assert(dot_raw_spec(u, u) >= SCALE as int * SCALE as int / 4) by (nonlinear_arith)
        requires
            dot_raw_spec(u, u) == u.x * u.x + u.y * u.y + u.z * u.z,
            s_abs(u.x as int) >= SCALE as int / 2 || s_abs(u.y as int) >= SCALE as int / 2
                || s_abs(u.z as int) >= SCALE as int / 2,
            SCALE == 65536,
    ;
    assert(dot_raw_spec(u, u) <= 3 * (SCALE as int * SCALE as int)) by (nonlinear_arith)
        requires
            dot_raw_spec(u, u) == u.x * u.x + u.y * u.y + u.z * u.z,
            -(SCALE as int) <= u.x <= SCALE as int,
            -(SCALE as int) <= u.y <= SCALE as int,
            -(SCALE as int) <= u.z <= SCALE as int,
    ;
}

/// A component divided by a length at least as large stays within SCALE.
proof fn lemma_unit_in_range(c: int, len: int)
    requires
        len >= 1,
        s_abs(c) <= len,
    ensures
        -(SCALE as int) <= div_trunc(c * SCALE as int, len) <= SCALE as int,
        s_abs(c * SCALE as int) <= i64::MAX as int * len,
{
    let m = s_abs(c) * SCALE as int;
    assert(s_abs(c * SCALE as int) == m) by (nonlinear_arith)
        requires
            SCALE > 0,
            m == s_abs(c) * SCALE as int,
    ;
    assert(m <= len * SCALE as int) by (nonlinear_arith)
        requires
            s_abs(c) <= len,
            SCALE > 0,
            m == s_abs(c) * SCALE as int,
    ;
    vstd::arithmetic::div_mod::lemma_div_is_ordered(m, len * SCALE as int, len);
    vstd::arithmetic::div_mod::lemma_div_multiples_vanish(SCALE as int, len);
    assert(len * SCALE as int == SCALE as int * len) by (nonlinear_arith);
    assert(m / len <= SCALE as int);
    assert(m <= i64::MAX as int * len) by (nonlinear_arith)
        requires
            m <= len * SCALE as int,
            SCALE as int <= i64::MAX as int,
            len >= 1,
    ;
}

} // verus!
