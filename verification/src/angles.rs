//! Integer approximations of the spherical-coordinate angles.
//!
//! The sphere's surface parameterization needs acos and atan2.  In
//! fixed point they are approximated by the classic rational formula
//! angle = pi/4 - pi/4 * (x - |y|)/(x + |y|) (and its x < 0 mirror),
//! whose worst error is about 0.07 rad; acos(w) is derived as
//! atan2(sqrt(1 - w^2), w).  Each function's contract states the
//! integer formula exactly.

use vstd::prelude::*;

use crate::fixed::{
    fx_div, fx_div_spec, fx_mul, fx_mul_spec, isqrt_u128, s_abs, sqrt_floor, SCALE,
};

verus! {

/// pi/4 in fixed point (rounded).
pub const QTR_PI_FX: i64 = 51472;

/// pi in fixed point: exactly 4 quarter-turns.
pub const PI_FX: i64 = 205888;

/// 2 pi in fixed point.
pub const TWO_PI_FX: i64 = 411776;

/// The approximated atan2, in fixed-point radians within [-pi, pi].
pub open spec fn atan2_spec(y: int, x: int) -> int {
    let ay = s_abs(y) + 1;
    let base = if x >= 0 {
        QTR_PI_FX - fx_mul_spec(QTR_PI_FX as int, fx_div_spec(x - ay, x + ay))
    } else {
        3 * QTR_PI_FX - fx_mul_spec(QTR_PI_FX as int, fx_div_spec(x + ay, ay - x))
    };
    if y < 0 {
        -base
    } else {
        base
    }
}

/// The approximated acos of w in [-1, 1], via atan2(sqrt(1 - w^2), w);
/// in fixed-point radians within [0, pi].
pub open spec fn acos_spec(w: int) -> int {
    atan2_spec(sqrt_floor((SCALE as int * SCALE as int - w * w) as nat) as int, w)
}

/// A quotient of a numerator no larger in magnitude than its positive
/// denominator stays within one unit.
proof fn lemma_ratio_unit(num: int, den: int)
    requires
        0 < den,
        s_abs(num) <= den,
    ensures
        s_abs(fx_div_spec(num, den)) <= SCALE as int,
        s_abs(num) * SCALE as int <= i64::MAX as int * s_abs(den),
{
    assert(s_abs(num * SCALE as int) == s_abs(num) * SCALE as int) by (nonlinear_arith)
        requires
            SCALE > 0,
    ;
    assert(s_abs(num) * SCALE as int <= den * SCALE as int) by (nonlinear_arith)
        requires
            0 <= s_abs(num) <= den,
            SCALE > 0,
    ;
    vstd::arithmetic::div_mod::lemma_div_is_ordered(
        s_abs(num) * SCALE as int,
        den * SCALE as int,
        den,
    );
    vstd::arithmetic::div_mod::lemma_div_multiples_vanish(SCALE as int, den);
    assert(den * SCALE as int == SCALE as int * den) by (nonlinear_arith);
    assert(den * SCALE as int <= i64::MAX as int * den) by (nonlinear_arith)
        requires
            0 < den,
            SCALE as int <= i64::MAX as int,
    ;
}

/// A unit-bounded ratio scaled by a quarter-turn stays within a
/// quarter-turn.
proof fn lemma_qtr_scale(r: int)
    requires
        s_abs(r) <= SCALE as int,
    ensures
        s_abs(QTR_PI_FX as int) * s_abs(r) <= i64::MAX as int * SCALE as int,
        s_abs(fx_mul_spec(QTR_PI_FX as int, r)) <= QTR_PI_FX as int,
{
    assert(s_abs(QTR_PI_FX as int) * s_abs(r) <= QTR_PI_FX as int * SCALE as int)
        by (nonlinear_arith)
        requires
            0 <= s_abs(r) <= SCALE as int,
    ;
    assert(QTR_PI_FX as int * SCALE as int <= i64::MAX as int * SCALE as int) by (nonlinear_arith)
        requires
            0 < SCALE,
            0 < QTR_PI_FX as int <= i64::MAX as int,
    ;
    assert(s_abs(QTR_PI_FX as int * r) == QTR_PI_FX as int * s_abs(r)) by (nonlinear_arith);
    assert(QTR_PI_FX as int * SCALE as int == SCALE as int * QTR_PI_FX as int)
        by (nonlinear_arith);
    vstd::arithmetic::div_mod::lemma_div_is_ordered(
        s_abs(QTR_PI_FX as int * r),
        SCALE as int * QTR_PI_FX as int,
        SCALE as int,
    );
    vstd::arithmetic::div_mod::lemma_div_multiples_vanish(QTR_PI_FX as int, SCALE as int);
    assert(s_abs(fx_mul_spec(QTR_PI_FX as int, r)) == s_abs(QTR_PI_FX as int * r) / SCALE as int);
}

/// Approximated atan2, exact per `atan2_spec`, within [-pi, pi].
pub fn atan2_fx(y: i64, x: i64) -> (a: i64)
    requires
        s_abs(y as int) <= 0x100000000int,
        s_abs(x as int) <= 0x100000000int,
    ensures
        a == atan2_spec(y as int, x as int),
        -PI_FX <= a <= PI_FX,
        y >= 0 ==> 0 <= a,
{
    let ay: i64 = if y >= 0 {
        y + 1
    } else {
        -y + 1
    };
    let base: i64 = if x >= 0 {
        proof {
            lemma_ratio_unit((x - ay) as int, (x + ay) as int);
        }
        let r: i64 = fx_div(x - ay, x + ay);
        proof {
            lemma_qtr_scale(r as int);
        }
        QTR_PI_FX - fx_mul(QTR_PI_FX, r)
    } else {
        proof {
            lemma_ratio_unit((x + ay) as int, (ay - x) as int);
        }
        let r: i64 = fx_div(x + ay, ay - x);
        proof {
            lemma_qtr_scale(r as int);
        }
        3 * QTR_PI_FX - fx_mul(QTR_PI_FX, r)
    };
    if y < 0 {
        -base
    } else {
        base
    }
}

/// Approximated acos, exact per `acos_spec`, within [0, pi].
pub fn acos_fx(w: i64) -> (a: i64)
    requires
        s_abs(w as int) <= SCALE,
    ensures
        a == acos_spec(w as int),
        0 <= a <= PI_FX,
{
    proof {
        assert(0 <= w as int * w as int <= SCALE as int * SCALE as int) by (nonlinear_arith)
            requires
                s_abs(w as int) <= SCALE as int,
        ;
    }
    let w2: i128 = (w as i128) * (w as i128);
    let rest: u128 = ((SCALE as i128) * (SCALE as i128) - w2) as u128;
    let s_wide: u128 = isqrt_u128(rest);
    proof {
        crate::fixed::lemma_sqrt_floor(rest as nat);
        assert(s_wide as int * s_wide as int <= SCALE as int * SCALE as int ==> s_wide as int
            <= SCALE as int) by (nonlinear_arith);
    }
    let s: i64 = s_wide as i64;
    atan2_fx(s, w)
}

} // verus!
