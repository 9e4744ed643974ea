//! Scalar fixed-point arithmetic.
//!
//! Every geometric quantity in this library is an integer number of
//! 1/SCALE units.  All operations round toward zero, and each one's
//! contract states its result exactly over the mathematical integers.

use vstd::prelude::*;

verus! {

/// Number of fixed-point units in 1.0.
pub const SCALE: i64 = 65536;

/// Magnitude of a mathematical integer.
pub open spec fn s_abs(a: int) -> int {
    if a >= 0 {
        a
    } else {
        -a
    }
}

/// Division truncating toward zero: the rounding every fixed-point
/// operation in this library uses.
pub open spec fn div_trunc(n: int, d: int) -> int {
    let q = s_abs(n) / s_abs(d);
    if (n >= 0) == (d >= 0) {
        q
    } else {
        -q
    }
}

/// Fixed-point product: (a * b) / SCALE, truncated toward zero.
pub open spec fn fx_mul_spec(a: int, b: int) -> int {
    div_trunc(a * b, SCALE as int)
}

/// Fixed-point quotient: (a * SCALE) / b, truncated toward zero.
pub open spec fn fx_div_spec(a: int, b: int) -> int {
    div_trunc(a * SCALE as int, b)
}

/// Floor of the square root of a natural number.
pub open spec fn sqrt_floor(n: nat) -> nat
    decreases n,
{
    if n == 0 {
        0
    } else {
        let p = sqrt_floor((n - 1) as nat);
        if (p + 1) * (p + 1) <= n {
            p + 1
        } else {
            p
        }
    }
}

/// `sqrt_floor(n)` is the unique r with r * r <= n < (r + 1) * (r + 1).
pub proof fn lemma_sqrt_floor(n: nat)
    ensures
        sqrt_floor(n) * sqrt_floor(n) <= n,
        n < (sqrt_floor(n) + 1) * (sqrt_floor(n) + 1),
    decreases n,
{
    let s = sqrt_floor(n);
    if n == 0 {
        assert(s == 0);
        assert(s * s <= n) by (nonlinear_arith)
            requires
                s == 0,
                n == 0,
        ;
        assert(n < (s + 1) * (s + 1)) by (nonlinear_arith)
            requires
                s == 0,
                n == 0,
        ;
    } else {
        lemma_sqrt_floor((n - 1) as nat);
        let p = sqrt_floor((n - 1) as nat);
        assert(p * p <= n - 1);
        assert(n - 1 < (p + 1) * (p + 1));
        if (p + 1) * (p + 1) <= n {
            assert(s == p + 1);
            assert(s * s <= n) by (nonlinear_arith)
                requires
                    s == p + 1,
                    (p + 1) * (p + 1) <= n,
            ;
            assert(n < (s + 1) * (s + 1)) by (nonlinear_arith)
                requires
                    s == p + 1,
                    (n - 1) < (p + 1) * (p + 1),
                    p >= 0,
            ;
        } else {
            assert(s == p);
            assert(s * s <= n) by (nonlinear_arith)
                requires
                    s == p,
                    p * p <= n - 1,
            ;
            assert(n < (s + 1) * (s + 1)) by (nonlinear_arith)
                requires
                    s == p,
                    !((p + 1) * (p + 1) <= n),
            ;
        }
    }
}

/// Any r with r * r <= n < (r + 1) * (r + 1) equals sqrt_floor(n).
pub proof fn lemma_sqrt_floor_unique(n: nat, r: nat)
    requires
        r * r <= n,
        n < (r + 1) * (r + 1),
    ensures
        r == sqrt_floor(n),
{
    lemma_sqrt_floor(n);
    let s = sqrt_floor(n);
    assert(r == s) by (nonlinear_arith)
        requires
            r * r <= n,
            n < (r + 1) * (r + 1),
            s * s <= n,
            n < (s + 1) * (s + 1),
            r >= 0,
            s >= 0,
    ;
}

/// Scaling by SCALE and dividing by SCALE cancel exactly.
pub proof fn lemma_div_trunc_multiples(a: int)
    ensures
        div_trunc(a * SCALE as int, SCALE as int) == a,
{
    assert(s_abs(a * SCALE as int) == s_abs(a) * SCALE as int) by (nonlinear_arith)
        requires
            SCALE > 0,
    ;
    vstd::arithmetic::div_mod::lemma_div_multiples_vanish(s_abs(a), SCALE as int);
    assert(s_abs(a) * SCALE as int == SCALE as int * s_abs(a)) by (nonlinear_arith);
    assert(((a * SCALE as int >= 0) == (a >= 0)) || a == 0) by (nonlinear_arith)
        requires
            SCALE > 0,
    ;
}

/// The fixed-point product of two values in [0, SCALE] stays in
/// [0, SCALE], and below either factor.
pub proof fn lemma_fx_mul_unit_range(a: int, b: int)
    requires
        0 <= a <= SCALE as int,
        0 <= b,
    ensures
        0 <= fx_mul_spec(a, b) <= b,
        fx_mul_spec(a, b) <= a * b / SCALE as int,
        fx_mul_spec(a, b) == a * b / SCALE as int,
{
    assert(a * b >= 0) by (nonlinear_arith)
        requires
            a >= 0,
            b >= 0,
    ;
    assert(a * b <= SCALE as int * b) by (nonlinear_arith)
        requires
            0 <= a <= SCALE as int,
            b >= 0,
    ;
    vstd::arithmetic::div_mod::lemma_div_is_ordered(a * b, SCALE as int * b, SCALE as int);
    vstd::arithmetic::div_mod::lemma_div_multiples_vanish(b, SCALE as int);
}

/// When the divisor divides exactly, truncation is plain division.
pub proof fn lemma_div_trunc_exact(n: int, d: int)
    requires
        d > 0,
        n % d == 0,
    ensures
        div_trunc(n, d) == n / d,
        d * (n / d) == n,
{
    vstd::arithmetic::div_mod::lemma_fundamental_div_mod(n, d);
    if n >= 0 {
    } else {
        let q = n / d;
        assert(n == d * q);
        assert(q < 0 || n >= 0) by (nonlinear_arith)
            requires
                n == d * q,
                d > 0,
                n < 0,
        ;
        assert(s_abs(n) == d * (-q)) by (nonlinear_arith)
            requires
                n == d * q,
                n < 0,
        ;
        vstd::arithmetic::div_mod::lemma_div_multiples_vanish(-q, d);
        assert(s_abs(n) / d == -q);
    }
}

/// Division of wide intermediates, truncating toward zero, exact per
/// `div_trunc`.
pub fn div_trunc_i128(n: i128, d: i128) -> (q: i128)
    requires
        d != 0,
        n > i128::MIN,
        d > i128::MIN,
    ensures
        q == div_trunc(n as int, d as int),
        s_abs(q as int) == s_abs(n as int) / s_abs(d as int),
        s_abs(q as int) <= s_abs(n as int),
{
    let mn: u128 = if n >= 0 {
        n as u128
    } else {
        (-n) as u128
    };
    let md: u128 = if d >= 0 {
        d as u128
    } else {
        (-d) as u128
    };
    let mq: u128 = mn / md;
    proof {
        vstd::arithmetic::div_mod::lemma_div_is_ordered_by_denominator(mn as int, 1, md as int);
        vstd::arithmetic::div_mod::lemma_div_basics(mn as int);
    }
    if (n < 0) != (d < 0) {
        -(mq as i128)
    } else {
        mq as i128
    }
}

/// Magnitude of an i64, as a u64 (total, also at i64::MIN).
pub fn abs_i64(a: i64) -> (r: u64)
    ensures
        r == s_abs(a as int),
{
    if a >= 0 {
        a as u64
    } else {
        (-(a as i128)) as u64
    }
}

/// Fixed-point multiplication, exact per `fx_mul_spec`.
pub fn fx_mul(a: i64, b: i64) -> (r: i64)
    requires
        s_abs(a as int) * s_abs(b as int) <= i64::MAX as int * SCALE as int,
    ensures
        r == fx_mul_spec(a as int, b as int),
{
    let ma: u128 = abs_i64(a) as u128;
    let mb: u128 = abs_i64(b) as u128;
    proof {
        assert(ma * mb <= i64::MAX as int * SCALE as int) by (nonlinear_arith)
            requires
                ma == s_abs(a as int),
                mb == s_abs(b as int),
                s_abs(a as int) * s_abs(b as int) <= i64::MAX as int * SCALE as int,
        ;
    }
    let mag: u128 = (ma * mb) / (SCALE as u128);
    proof {
        vstd::arithmetic::div_mod::lemma_div_is_ordered(
            (ma * mb) as int,
            i64::MAX as int * SCALE as int,
            SCALE as int,
        );
        vstd::arithmetic::div_mod::lemma_div_multiples_vanish(
            i64::MAX as int,
            SCALE as int,
        );
        assert(mag <= i64::MAX);
        assert(s_abs(a as int) * s_abs(b as int) == s_abs(a as int * b as int)) by (nonlinear_arith);
        assert(((a as int * b as int >= 0) == ((a >= 0) == (b >= 0))) || a as int * b as int == 0)
            by (nonlinear_arith);
    }
    if (a < 0) != (b < 0) {
        -(mag as i64)
    } else {
        mag as i64
    }
}

/// Fixed-point division, exact per `fx_div_spec`.
pub fn fx_div(a: i64, b: i64) -> (r: i64)
    requires
        b != 0,
        s_abs(a as int) * SCALE as int <= i64::MAX as int * s_abs(b as int),
    ensures
        r == fx_div_spec(a as int, b as int),
{
    let ma: u128 = abs_i64(a) as u128 * (SCALE as u128);
    let mb: u128 = abs_i64(b) as u128;
    let mag: u128 = ma / mb;
    proof {
        vstd::arithmetic::div_mod::lemma_div_is_ordered(
            ma as int,
            i64::MAX as int * mb as int,
            mb as int,
        );
        vstd::arithmetic::div_mod::lemma_div_multiples_vanish(i64::MAX as int, mb as int);
        assert(mag <= i64::MAX);
        assert(s_abs(a as int) * SCALE as int == s_abs(a as int * SCALE as int)) by (nonlinear_arith)
            requires
                SCALE > 0,
        ;
        assert(((a as int * SCALE as int >= 0) == (a >= 0)) || a as int == 0) by (nonlinear_arith)
            requires
                SCALE > 0,
        ;
    }
    if (a < 0) != (b < 0) {
        -(mag as i64)
    } else {
        mag as i64
    }
}

/// Floor square root of a u128, exact per `sqrt_floor`.
pub fn isqrt_u128(x: u128) -> (r: u128)
    ensures
        r == sqrt_floor(x as nat),
        r <= u64::MAX,
{
    let mut lo: u128 = 0;
    let mut hi: u128 = 1u128 << 64;
    proof {
        assert((1u128 << 64) == 0x1_0000_0000_0000_0000u128) by (bit_vector);
    }
    while lo + 1 < hi
        invariant
            lo < hi,
            hi <= 0x1_0000_0000_0000_0000u128,
            lo * lo <= x as int,
            x < hi * hi,
        decreases hi - lo,
    {
        let mid: u128 = lo + (hi - lo) / 2;
        proof {
            assert(mid * mid < 0x1_0000_0000_0000_0000u128 * 0x1_0000_0000_0000_0000u128)
                by (nonlinear_arith)
                requires
                    mid < 0x1_0000_0000_0000_0000u128,
            ;
        }
        if mid * mid <= x {
            lo = mid;
        } else {
            hi = mid;
        }
    }
    proof {
        lemma_sqrt_floor_unique(x as nat, lo as nat);
    }
    lo
}

/// Fixed-point square root of a nonnegative value:
/// sqrt_floor(a * SCALE), so that the result is again in 1/SCALE units.
pub fn fx_sqrt(a: i64) -> (r: i64)
    requires
        a >= 0,
    ensures
        r == sqrt_floor((a * SCALE) as nat),
        r >= 0,
{
    proof {
        assert((a as u128) * (SCALE as u128) <= 0x7fffffffffffffffu128 * 65536)
            by (nonlinear_arith)
            requires
                0 <= a as int <= 0x7fffffffffffffffi64,
                SCALE == 65536,
        ;
    }
    let m: u128 = (a as u128) * (SCALE as u128);
    let r: u128 = isqrt_u128(m);
    proof {
        lemma_sqrt_floor(m as nat);
        assert(m <= 0x7fffffffffffffffu128 * 65536) by (nonlinear_arith)
            requires
                m == a as int * (SCALE as int),
                0 <= a as int <= 0x7fffffffffffffffi64,
                SCALE == 65536,
        ;
        assert(r <= i64::MAX) by (nonlinear_arith)
            requires
                r * r <= m,
                m <= 0x7fffffffffffffffu128 * 65536,
                r >= 0,
        ;
    }
    r as i64
}

} // verus!
