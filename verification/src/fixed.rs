//! Signed fixed-point scalars: an `i64` carries `SCALE` (65536) units to
//! one. The executable operations round toward zero, exactly as the
//! spec-level `tdiv`/`fmul`/`fdiv`/`fsqrt` functions describe, so every
//! geometric computation built on them has an exact mathematical value.
//! The arithmetic definitions spell the scale out as the literal 65536 so
//! that the solver can fold concrete values.

use vstd::prelude::*;
use vstd::arithmetic::div_mod::{lemma_div_is_ordered, lemma_div_pos_is_pos, lemma_div_by_multiple};

verus! {

/// Number of fixed-point units in 1.0.
pub const SCALE: i64 = 65536;

/// Division rounding toward zero (the rounding of the executable
/// operations); `d` must be positive for the result to be meaningful.
pub open spec fn tdiv(a: int, d: int) -> int {
    if a >= 0 {
        a / d
    } else {
        -((-a) / d)
    }
}

/// Fixed-point product: the real value (a/SCALE)*(b/SCALE), scaled back up
/// and rounded toward zero.
pub open spec fn fmul(a: int, b: int) -> int {
    tdiv(a * b, 65536)
}

/// Fixed-point quotient: the real value (a/SCALE)/(d/SCALE), scaled back up
/// and rounded toward zero; `d` must be positive.
pub open spec fn fdiv(a: int, d: int) -> int {
    tdiv(a * 65536, d)
}

/// Integer square root, rounded down.
pub open spec fn sqrt_floor(n: nat) -> nat
    decreases n,
{
    if n == 0 {
        0
    } else {
        let r = sqrt_floor((n - 1) as nat);
        if (r + 1) * (r + 1) <= n {
            r + 1
        } else {
            r
        }
    }
}

/// Fixed-point square root of a non-negative value: floor of the square
/// root of x/SCALE in real terms, i.e. sqrt_floor of x*SCALE in units.
pub open spec fn fsqrt(x: int) -> int {
    sqrt_floor((x * 65536) as nat) as int
}

proof fn lemma_sqrt_step(n: nat, r: nat, s: nat)
    requires
        1 <= n,
        r * r <= n - 1,
        n - 1 < (r + 1) * (r + 1),
        s == (if (r + 1) * (r + 1) <= n {
            r + 1
        } else {
            r
        }),
    ensures
        s * s <= n,
        n < (s + 1) * (s + 1),
{
    if (r + 1) * (r + 1) <= n {
        assert(s * s <= n) by (nonlinear_arith)
            requires
                s == r + 1,
                (r + 1) * (r + 1) <= n,
        ;
        assert(n < (s + 1) * (s + 1)) by (nonlinear_arith)
            requires
                s == r + 1,
                n - 1 < (r + 1) * (r + 1),
        ;
    } else {
        assert(s * s <= n) by (nonlinear_arith)
            requires
                s == r,
                r * r <= n - 1,
                1 <= n,
        ;
        assert(n < (s + 1) * (s + 1)) by (nonlinear_arith)
            requires
                s == r,
                n < (r + 1) * (r + 1),
        ;
    }
}

pub proof fn lemma_sqrt_floor_bounds(n: nat)
    ensures
        sqrt_floor(n) * sqrt_floor(n) <= n,
        n < (sqrt_floor(n) + 1) * (sqrt_floor(n) + 1),
    decreases n,
{
    if n == 0 {
        lemma_sqrt_zero(sqrt_floor(n));
    } else {
        lemma_sqrt_floor_bounds((n - 1) as nat);
        lemma_sqrt_step(n, sqrt_floor((n - 1) as nat), sqrt_floor(n));
    }
}

proof fn lemma_sqrt_zero(s: nat)
    requires
        s == 0,
    ensures
        s * s == 0,
        (s + 1) * (s + 1) == 1,
{
    assert(s * s == 0 && (s + 1) * (s + 1) == 1) by (nonlinear_arith)
        requires
            s == 0,
    ;
}

pub proof fn lemma_sqrt_floor_unique(n: nat, r: nat)
    requires
        r * r <= n,
        n < (r + 1) * (r + 1),
    ensures
        r == sqrt_floor(n),
{
    lemma_sqrt_floor_bounds(n);
    let s = sqrt_floor(n);
    if r < s {
        assert((r + 1) * (r + 1) <= s * s) by (nonlinear_arith)
            requires
                r + 1 <= s,
        ;
    } else if s < r {
        assert((s + 1) * (s + 1) <= r * r) by (nonlinear_arith)
            requires
                s + 1 <= r,
        ;
    }
}

pub proof fn lemma_sqrt_floor_below(n: nat, m: nat)
    requires
        n < m * m,
    ensures
        sqrt_floor(n) < m,
{
    lemma_sqrt_floor_bounds(n);
    let s = sqrt_floor(n);
    if s >= m {
        assert(m * m <= s * s) by (nonlinear_arith)
            requires
                m <= s,
        ;
    }
}

pub proof fn lemma_tdiv_bounds(a: int, d: int, m: int)
    requires
        0 < d,
        -m <= a <= m,
        0 <= m,
    ensures
        -(m / d) <= tdiv(a, d) <= m / d,
{
    if a >= 0 {
        lemma_div_pos_is_pos(a, d);
        lemma_div_is_ordered(a, m, d);
    } else {
        lemma_div_pos_is_pos(-a, d);
        lemma_div_is_ordered(-a, m, d);
    }
    lemma_div_pos_is_pos(m, d);
}

pub proof fn lemma_tdiv_neg(a: int, d: int)
    requires
        0 < d,
    ensures
        tdiv(-a, d) == -tdiv(a, d),
{
    if a == 0 {
        assert(0int / d == 0) by {
            lemma_div_pos_is_pos(0, d);
            lemma_div_is_ordered(0, 0, d);
        }
    }
}

pub proof fn lemma_tdiv_nonneg(a: int, d: int)
    requires
        0 < d,
        0 <= a,
    ensures
        0 <= tdiv(a, d),
        tdiv(a, d) == a / d,
{
    lemma_div_pos_is_pos(a, d);
}

/// Multiplying by a whole SCALE and dividing it back out is exact.
pub proof fn lemma_tdiv_scale_exact(x: int)
    ensures
        tdiv(x * 65536, 65536) == x,
        fmul(x, 65536) == x,
        fmul(65536, x) == x,
{
    if x >= 0 {
        lemma_div_by_multiple(x, 65536);
    } else {
        lemma_div_by_multiple(-x, 65536);
    }
}

/// Dividing t*d by d is exact, for any positive d.
pub proof fn lemma_tdiv_mul_exact(t: int, d: int)
    requires
        0 < d,
    ensures
        tdiv(t * d, d) == t,
{
    if t >= 0 {
        lemma_div_by_multiple(t, d);
    } else {
        lemma_div_by_multiple(-t, d);
        assert((-t) * d == -(t * d)) by (nonlinear_arith);
    }
}

pub proof fn lemma_fmul_bound(a: int, b: int, ma: int, mb: int)
    requires
        -ma <= a <= ma,
        -mb <= b <= mb,
        0 <= ma,
        0 <= mb,
    ensures
        -((ma * mb) / 65536) <= fmul(a, b) <= (ma * mb) / 65536,
        -(ma * mb) <= a * b <= ma * mb,
{
    assert(-(ma * mb) <= a * b <= ma * mb) by (nonlinear_arith)
        requires
            -ma <= a <= ma,
            -mb <= b <= mb,
            0 <= ma,
            0 <= mb,
    ;
    assert(0 <= ma * mb) by (nonlinear_arith)
        requires
            0 <= ma,
            0 <= mb,
    ;
    lemma_tdiv_bounds(a * b, 65536, ma * mb);
}

pub proof fn lemma_fmul_nonneg(a: int, b: int)
    requires
        0 <= a,
        0 <= b,
    ensures
        0 <= fmul(a, b),
{
    assert(0 <= a * b) by (nonlinear_arith)
        requires
            0 <= a,
            0 <= b,
    ;
    lemma_tdiv_nonneg(a * b, 65536);
}

pub proof fn lemma_fmul_neg(a: int, b: int)
    ensures
        fmul(-a, b) == -fmul(a, b),
        fmul(a, -b) == -fmul(a, b),
{
    assert((-a) * b == -(a * b) && a * (-b) == -(a * b)) by (nonlinear_arith);
    lemma_tdiv_neg(a * b, 65536);
}

/// The fixed-point product of two multiples of 256 (the square root of
/// the scale) is exact.
pub proof fn lemma_fmul_multiples(x: int, y: int)
    requires
        x % 256 == 0,
        y % 256 == 0,
    ensures
        fmul(x, y) == (x / 256) * (y / 256),
{
    vstd::arithmetic::div_mod::lemma_fundamental_div_mod(x, 256);
    vstd::arithmetic::div_mod::lemma_fundamental_div_mod(y, 256);
    assert(x * y == ((x / 256) * (y / 256)) * 65536) by (nonlinear_arith)
        requires
            x == 256 * (x / 256),
            y == 256 * (y / 256),
    ;
    lemma_tdiv_mul_exact((x / 256) * (y / 256), 65536);
}

pub proof fn lemma_fmul_zero(a: int)
    ensures
        fmul(0, a) == 0,
        fmul(a, 0) == 0,
{
    assert(0 * a == 0 && a * 0 == 0) by (nonlinear_arith);
    vstd::arithmetic::div_mod::lemma_div_of0(65536);
}

pub proof fn lemma_fmul_self_nonneg(a: int)
    ensures
        0 <= fmul(a, a),
{
    assert(0 <= a * a) by (nonlinear_arith);
    lemma_tdiv_nonneg(a * a, 65536);
}

pub proof fn lemma_fdiv_bounds(a: int, d: int, m: int)
    requires
        0 < d,
        -m <= a <= m,
        0 <= m,
    ensures
        -(m * 65536) <= fdiv(a, d) <= m * 65536,
{
    lemma_tdiv_bounds(a * 65536, d, m * 65536);
    assert((m * 65536) / d <= m * 65536) by {
        vstd::arithmetic::div_mod::lemma_div_nonincreasing(m * 65536, d);
        lemma_div_pos_is_pos(m * 65536, d);
    }
}

/// Integer square root of a u128, by bisection.
pub fn isqrt(n: u128) -> (r: u128)
    requires
        n < 0x10000000000000000000000000,
    ensures
        r as nat == sqrt_floor(n as nat),
        (r as int) * (r as int) <= n as int,
        (n as int) < (r as int + 1) * (r as int + 1),
{
    let mut lo: u128 = 0;
    let mut hi: u128 = 0x4000000000000;
    proof {
        assert(0x4000000000000int * 0x4000000000000int == 0x10000000000000000000000000int)
            by (nonlinear_arith);
    }
    while lo + 1 < hi
        invariant
            lo < hi,
            hi <= 0x4000000000000,
            (lo as int) * (lo as int) <= n as int,
            (n as int) < (hi as int) * (hi as int),
        decreases hi - lo,
    {
        let mid: u128 = lo + (hi - lo) / 2;
        proof {
            assert((mid as int) * (mid as int) <= 0x10000000000000000000000000int) by (nonlinear_arith)
                requires
                    0 <= mid as int <= 0x4000000000000int,
            ;
        }
        if mid * mid <= n {
            lo = mid;
        } else {
            hi = mid;
        }
    }
    proof {
        lemma_sqrt_floor_unique(n as nat, lo as nat);
    }
    lo
}

/// Fixed-point multiply, rounding toward zero.
pub fn fp_mul(a: i64, b: i64) -> (r: i64)
    requires
        i64::MIN <= fmul(a as int, b as int) <= i64::MAX,
    ensures
        r as int == fmul(a as int, b as int),
{
    let aw: i128 = a as i128;
    let bw: i128 = b as i128;
    let neg: bool = (aw < 0) != (bw < 0);
    let ma: u128 = (if aw < 0 { -aw } else { aw }) as u128;
    let mb: u128 = (if bw < 0 { -bw } else { bw }) as u128;
    proof {
        assert(ma as int * (mb as int) <= 0x8000000000000000 * 0x8000000000000000) by (nonlinear_arith)
            requires
                0 <= ma as int <= 0x8000000000000000,
                0 <= mb as int <= 0x8000000000000000,
        ;
    }
    let p: u128 = ma * mb;
    let q: u128 = p / 65536;
    proof {
        let ai = a as int;
        let bi = b as int;
        assert(if (ai < 0) != (bi < 0) {
            ai * bi <= 0 && (ma as int) * (mb as int) == -(ai * bi)
        } else {
            ai * bi >= 0 && (ma as int) * (mb as int) == ai * bi
        }) by (nonlinear_arith)
            requires
                ma as int == (if ai < 0 { -ai } else { ai }),
                mb as int == (if bi < 0 { -bi } else { bi }),
        ;
        if neg {
            lemma_tdiv_neg(-(ai * bi), 65536);
            lemma_tdiv_nonneg(-(ai * bi), 65536);
        } else {
            lemma_tdiv_nonneg(ai * bi, 65536);
        }
    }
    if neg {
        (-(q as i128)) as i64
    } else {
        q as i64
    }
}

/// Fixed-point divide by a positive divisor, rounding toward zero.
pub fn fp_div(a: i64, d: i64) -> (r: i64)
    requires
        0 < d,
        i64::MIN <= fdiv(a as int, d as int) <= i64::MAX,
    ensures
        r as int == fdiv(a as int, d as int),
{
    let aw: i128 = a as i128;
    let neg: bool = aw < 0;
    let ma: u128 = (if neg { -aw } else { aw }) as u128;
    let p: u128 = ma * 65536;
    let q: u128 = p / (d as u128);
    proof {
        let ai = a as int;
        assert((ma as int) * 65536 == if ai < 0 { -(ai * 65536) } else { ai * 65536 });
        if neg {
            lemma_tdiv_neg(-(ai * 65536), d as int);
            lemma_tdiv_nonneg(-(ai * 65536), d as int);
        } else {
            lemma_tdiv_nonneg(ai * 65536, d as int);
        }
        vstd::arithmetic::div_mod::lemma_div_nonincreasing(p as int, d as int);
        lemma_div_pos_is_pos(p as int, d as int);
    }
    if neg {
        (-(q as i128)) as i64
    } else {
        q as i64
    }
}

/// Fixed-point square root of a non-negative value.
pub fn fp_sqrt(x: i64) -> (r: i64)
    requires
        0 <= x,
    ensures
        r as int == fsqrt(x as int),
        0 <= r,
{
    let n: u128 = (x as u128) * 65536;
    let r: u128 = isqrt(n);
    proof {
        assert((n as int) < 0x80000000000int * 0x80000000000int) by (nonlinear_arith)
            requires
                n as int == (x as int) * 65536,
                0 <= x as int <= 0x7fffffffffffffffint,
        ;
        lemma_sqrt_floor_below(n as nat, 0x80000000000nat);
    }
    r as i64
}

} // verus!
