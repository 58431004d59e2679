//! Fixed-point arithmetic used throughout the gradient engine.
//!
//! A real number `x` is represented by the integer `x * ONE`, truncated
//! toward zero.  All arithmetic is carried out in `i128` and the results of
//! public conversions saturate at `FXMAX`, the edge of the representable
//! range, much as hardware floating point saturates at its largest finite
//! value.

use vstd::prelude::*;
use vstd::arithmetic::div_mod::{
    lemma_div_by_multiple, lemma_div_is_ordered, lemma_div_nonincreasing, lemma_div_pos_is_pos,
    lemma_fundamental_div_mod,
};
use vstd::arithmetic::mul::lemma_mul_inequality;
use vstd::math::abs;

verus! {

/// Number of fixed-point units that stand for the real value one.
pub const ONE: i64 = 1_000_000;

/// Largest representable magnitude (ten million in real units).
pub const FXMAX: i64 = 10_000_000_000_000;

/// Division truncated toward zero, for a positive divisor.
pub open spec fn tdiv(a: int, b: int) -> int {
    if a >= 0 {
        a / b
    } else {
        -((-a) / b)
    }
}

/// Clamp into the representable range `[-FXMAX, FXMAX]`.
pub open spec fn sat(x: int) -> int {
    if x < -FXMAX {
        -FXMAX as int
    } else if x > FXMAX {
        FXMAX as int
    } else {
        x
    }
}

/// The magnitude of a truncated quotient never exceeds the magnitude of the
/// dividend.
pub proof fn lemma_tdiv_abs_le(a: int, b: int)
    requires
        b >= 1,
    ensures
        abs(tdiv(a, b)) <= abs(a),
        a >= 0 ==> 0 <= tdiv(a, b) <= a,
        a < 0 ==> a <= tdiv(a, b) <= 0,
{
    if a >= 0 {
        lemma_div_nonincreasing(a, b);
        lemma_div_pos_is_pos(a, b);
    } else {
        lemma_div_nonincreasing(-a, b);
        lemma_div_pos_is_pos(-a, b);
    }
}

/// If `|n| <= k * d` then the truncated quotient `n / d` has magnitude at
/// most `k`.
pub proof fn lemma_tdiv_le(n: int, d: int, k: int)
    requires
        d >= 1,
        k >= 0,
        abs(n) <= k * d,
    ensures
        abs(tdiv(n, d)) <= k,
{
    lemma_div_is_ordered(abs(n) as int, k * d, d);
    lemma_div_by_multiple(k, d);
    if n >= 0 {
        lemma_div_pos_is_pos(n, d);
    } else {
        lemma_div_pos_is_pos(-n, d);
    }
}

/// Truncated division is monotone in the dividend.
pub proof fn lemma_tdiv_monotone(a: int, b: int, d: int)
    requires
        a <= b,
        d >= 1,
    ensures
        tdiv(a, d) <= tdiv(b, d),
{
    if a >= 0 {
        lemma_div_is_ordered(a, b, d);
    } else if b < 0 {
        lemma_div_is_ordered(-b, -a, d);
    } else {
        lemma_div_pos_is_pos(-a, d);
        lemma_div_pos_is_pos(b, d);
    }
}

/// Multiples of the divisor divide exactly.
pub proof fn lemma_tdiv_exact(k: int, d: int)
    requires
        d >= 1,
    ensures
        tdiv(k * d, d) == k,
{
    if k >= 0 {
        lemma_div_by_multiple(k, d);
    } else {
        lemma_div_by_multiple(-k, d);
        assert(-(k * d) == (-k) * d) by (nonlinear_arith);
    }
}

/// A common positive factor of dividend and divisor cancels.
pub proof fn lemma_tdiv_scale(a: int, b: int, k: int)
    requires
        b >= 1,
        k >= 1,
    ensures
        tdiv(k * a, k * b) == tdiv(a, b),
{
    if a >= 0 {
        assert((k * a) / (k * b) == a / b) by (nonlinear_arith)
            requires
                b >= 1,
                k >= 1,
                a >= 0,
        {
            vstd::arithmetic::div_mod::lemma_div_denominator(k * a, k, b);
            vstd::arithmetic::div_mod::lemma_div_multiples_vanish(a, k);
        }
        assert(k * a >= 0) by (nonlinear_arith)
            requires
                k >= 1,
                a >= 0,
        ;
        assert(k * b >= 1) by (nonlinear_arith)
            requires
                k >= 1,
                b >= 1,
        ;
    } else {
        assert((k * (-a)) / (k * b) == (-a) / b) by (nonlinear_arith)
            requires
                b >= 1,
                k >= 1,
                a < 0,
        {
            vstd::arithmetic::div_mod::lemma_div_denominator(k * (-a), k, b);
            vstd::arithmetic::div_mod::lemma_div_multiples_vanish(-a, k);
        }
        assert(k * a < 0) by (nonlinear_arith)
            requires
                k >= 1,
                a < 0,
        ;
        assert(k * b >= 1) by (nonlinear_arith)
            requires
                k >= 1,
                b >= 1,
        ;
        assert(-(k * a) == k * (-a)) by (nonlinear_arith);
    }
}

/// Bound on a product from bounds on its factors.
pub proof fn lemma_mul_le(a: int, b: int, ka: int, kb: int)
    by (nonlinear_arith)
    requires
        -ka <= a <= ka,
        -kb <= b <= kb,
        0 <= ka,
        0 <= kb,
    ensures
        -(ka * kb) <= a * b <= ka * kb,
{
}

/// Two-sided form of `lemma_tdiv_le`.
pub proof fn lemma_tdiv_le2(n: int, d: int, k: int)
    requires
        d >= 1,
        k >= 0,
        -(k * d) <= n <= k * d,
    ensures
        -k <= tdiv(n, d) <= k,
{
    lemma_tdiv_le(n, d, k);
}

/// Division truncated toward zero, computed through unsigned division.
pub fn div_tr(a: i128, b: i128) -> (r: i128)
    requires
        0 < b,
        i128::MIN < a,
    ensures
        r == tdiv(a as int, b as int),
        a >= 0 ==> 0 <= r <= a,
        a < 0 ==> a <= r <= 0,
{
    proof {
        lemma_tdiv_abs_le(a as int, b as int);
    }
    if a >= 0 {
        ((a as u128) / (b as u128)) as i128
    } else {
        let m = ((-a) as u128) / (b as u128);
        proof {
            lemma_div_nonincreasing((-a) as int, b as int);
            lemma_div_pos_is_pos((-a) as int, b as int);
        }
        -(m as i128)
    }
}

/// Euclidean remainder, non-negative for a positive modulus.
pub fn emod(x: i128, m: i128) -> (r: i128)
    requires
        0 < m,
        i128::MIN < x,
    ensures
        r == (x as int) % (m as int),
        0 <= r < m,
{
    if x >= 0 {
        let rr = (x as u128) % (m as u128);
        proof {
            lemma_fundamental_div_mod(x as int, m as int);
        }
        rr as i128
    } else {
        let rr = ((-x) as u128) % (m as u128);
        proof {
            let q = ((-x) as int) / (m as int);
            lemma_fundamental_div_mod((-x) as int, m as int);
            if rr == 0 {
                assert(x as int == (-q) * (m as int) + 0) by (nonlinear_arith)
                    requires
                        -(x as int) == (m as int) * q + rr,
                        rr == 0,
                ;
                vstd::arithmetic::div_mod::lemma_fundamental_div_mod_converse(
                    x as int,
                    m as int,
                    -q,
                    0,
                );
            } else {
                assert(x as int == (-q - 1) * (m as int) + ((m as int) - (rr as int)))
                    by (nonlinear_arith)
                    requires
                        -(x as int) == (m as int) * q + rr,
                ;
                vstd::arithmetic::div_mod::lemma_fundamental_div_mod_converse(
                    x as int,
                    m as int,
                    -q - 1,
                    m - rr as int,
                );
            }
        }
        if rr == 0 {
            0
        } else {
            m - (rr as i128)
        }
    }
}

/// Floor division is superadditive over non-negative operands.
pub proof fn lemma_div_superadd(a: int, b: int, n: int)
    requires
        n >= 1,
        a >= 0,
        b >= 0,
    ensures
        a / n + b / n <= (a + b) / n,
{
    let qa = a / n;
    let qb = b / n;
    lemma_fundamental_div_mod(a, n);
    lemma_fundamental_div_mod(b, n);
    lemma_div_pos_is_pos(a, n);
    lemma_div_pos_is_pos(b, n);
    if a % n + b % n < n {
        assert(a + b == (qa + qb) * n + (a % n + b % n)) by (nonlinear_arith)
            requires
                a == n * qa + a % n,
                b == n * qb + b % n,
        ;
        vstd::arithmetic::div_mod::lemma_fundamental_div_mod_converse(
            a + b,
            n,
            qa + qb,
            a % n + b % n,
        );
    } else {
        assert(a + b == (qa + qb + 1) * n + (a % n + b % n - n)) by (nonlinear_arith)
            requires
                a == n * qa + a % n,
                b == n * qb + b % n,
        ;
        vstd::arithmetic::div_mod::lemma_fundamental_div_mod_converse(
            a + b,
            n,
            qa + qb + 1,
            a % n + b % n - n,
        );
    }
}

/// Clamp an intermediate result back into the representable range.
pub fn sat_fx(x: i128) -> (r: i64)
    ensures
        r == sat(x as int),
{
    if x < -(FXMAX as i128) {
        -FXMAX
    } else if x > FXMAX as i128 {
        FXMAX
    } else {
        x as i64
    }
}

/// Whether `r` is the integer square root of `x`.
pub open spec fn is_sqrt(x: int, r: int) -> bool {
    0 <= r && r * r <= x && x < (r + 1) * (r + 1)
}

/// The integer square root, as the unique `r` with
/// `r * r <= x < (r + 1) * (r + 1)`.
pub open spec fn sqrt_floor(x: int) -> int {
    choose|r: int| is_sqrt(x, r)
}

/// The integer square root exists for every non-negative argument, so
/// `sqrt_floor` really satisfies its defining property.
pub proof fn lemma_sqrt_floor_exists(x: int)
    requires
        x >= 0,
    ensures
        is_sqrt(x, sqrt_floor(x)),
    decreases x,
{
    if x == 0 {
        assert(is_sqrt(0, 0)) by (nonlinear_arith);
        assert(exists|q: int| is_sqrt(x, q));
    } else {
        lemma_sqrt_floor_exists(x - 1);
        let r = sqrt_floor(x - 1);
        if x < (r + 1) * (r + 1) {
            assert(is_sqrt(x, r));
            assert(exists|q: int| is_sqrt(x, q));
        } else {
            assert(is_sqrt(x, r + 1)) by (nonlinear_arith)
                requires
                    is_sqrt(x - 1, r),
                    x >= (r + 1) * (r + 1),
            ;
            assert(exists|q: int| is_sqrt(x, q));
        }
    }
    assert(is_sqrt(x, sqrt_floor(x)));
}

pub proof fn lemma_sqrt_floor_unique(x: int, r: int)
    requires
        0 <= r,
        r * r <= x,
        x < (r + 1) * (r + 1),
    ensures
        sqrt_floor(x) == r,
{
    assert(exists|q: int| is_sqrt(x, q)) by {
        assert(is_sqrt(x, r));
    }
    let s = sqrt_floor(x);
    assert(is_sqrt(x, s));
    assert(s == r) by (nonlinear_arith)
        requires
            0 <= r,
            r * r <= x,
            x < (r + 1) * (r + 1),
            0 <= s,
            s * s <= x,
            x < (s + 1) * (s + 1),
    ;
}

/// Whether `r` is the integer cube root of `x`.
pub open spec fn is_cbrt(x: int, r: int) -> bool {
    0 <= r && r * r * r <= x && x < (r + 1) * (r + 1) * (r + 1)
}

/// The integer cube root of a non-negative value.
pub open spec fn cbrt_floor(x: int) -> int {
    choose|r: int| is_cbrt(x, r)
}

pub proof fn lemma_cbrt_floor_unique(x: int, r: int)
    requires
        0 <= r,
        r * r * r <= x,
        x < (r + 1) * (r + 1) * (r + 1),
    ensures
        cbrt_floor(x) == r,
{
    assert(exists|q: int| is_cbrt(x, q)) by {
        assert(is_cbrt(x, r));
    }
    let s = cbrt_floor(x);
    assert(is_cbrt(x, s));
    assert(s == r) by (nonlinear_arith)
        requires
            0 <= r,
            r * r * r <= x,
            x < (r + 1) * (r + 1) * (r + 1),
            0 <= s,
            s * s * s <= x,
            x < (s + 1) * (s + 1) * (s + 1),
    ;
}

/// Whether `r` is the integer fifth root of `x`.
pub open spec fn is_root5(x: int, r: int) -> bool {
    0 <= r && r * r * r * r * r <= x && x < (r + 1) * (r + 1) * (r + 1) * (r + 1) * (r + 1)
}

/// The integer fifth root of a non-negative value.
pub open spec fn root5_floor(x: int) -> int {
    choose|r: int| is_root5(x, r)
}

pub proof fn lemma_root5_floor_unique(x: int, r: int)
    requires
        0 <= r,
        r * r * r * r * r <= x,
        x < (r + 1) * (r + 1) * (r + 1) * (r + 1) * (r + 1),
    ensures
        root5_floor(x) == r,
{
    assert(exists|q: int| is_root5(x, q)) by {
        assert(is_root5(x, r));
    }
    let s = root5_floor(x);
    assert(is_root5(x, s));
    assert(s == r) by (nonlinear_arith)
        requires
            0 <= r,
            r * r * r * r * r <= x,
            x < (r + 1) * (r + 1) * (r + 1) * (r + 1) * (r + 1),
            0 <= s,
            s * s * s * s * s <= x,
            x < (s + 1) * (s + 1) * (s + 1) * (s + 1) * (s + 1),
    ;
}

/// Integer square root by bisection.
pub fn isqrt(x: u128) -> (r: u128)
    ensures
        r == sqrt_floor(x as int),
        r * r <= x,
        (x as int) < (r + 1) * (r + 1),
        r <= 0x1_0000_0000_0000_0000u128,
{
    let mut lo: u128 = 0;
    let mut hi: u128 = 0x1_0000_0000_0000_0000;
    proof {
        assert((hi as int) * (hi as int) == 0x1_0000_0000_0000_0000_0000_0000_0000_0000int);
    }
    while lo + 1 < hi
        invariant
            lo < hi <= 0x1_0000_0000_0000_0000u128,
            (lo as int) * (lo as int) <= x as int,
            (x as int) < (hi as int) * (hi as int),
        decreases hi - lo,
    {
        let mid = lo + (hi - lo) / 2;
        proof {
            assert((mid as int) * (mid as int) <= u128::MAX) by (nonlinear_arith)
                requires
                    mid < 0x1_0000_0000_0000_0000u128,
            ;
        }
        if mid * mid <= x {
            lo = mid;
        } else {
            hi = mid;
        }
    }
    proof {
        lemma_sqrt_floor_unique(x as int, lo as int);
    }
    lo
}

/// Integer cube root by bisection; `mid * mid * mid <= x` is decided through
/// a division so that no intermediate product can overflow.
pub fn icbrt(x: u128) -> (r: u128)
    ensures
        r == cbrt_floor(x as int),
        r * r * r <= x,
        (x as int) < (r + 1) * (r + 1) * (r + 1),
        r <= 0x80_0000_0000_0000u128,
{
    let mut lo: u128 = 0;
    let mut hi: u128 = 0x80_0000_0000_0000;
    proof {
        assert((hi as int) * (hi as int) * (hi as int) > u128::MAX as int) by (nonlinear_arith)
            requires
                hi == 0x80_0000_0000_0000u128,
        ;
    }
    while lo + 1 < hi
        invariant
            lo < hi <= 0x80_0000_0000_0000u128,
            (lo as int) * (lo as int) * (lo as int) <= x as int,
            (x as int) < (hi as int) * (hi as int) * (hi as int),
        decreases hi - lo,
    {
        let mid = lo + (hi - lo) / 2;
        proof {
            assert(mid >= 1);
            assert(1 <= (mid as int) * (mid as int) <= u128::MAX) by (nonlinear_arith)
                requires
                    1 <= mid <= 0x80_0000_0000_0000u128,
            ;
        }
        let m2 = mid * mid;
        let q = x / m2;
        proof {
            lemma_fundamental_div_mod(x as int, m2 as int);
            if mid <= q {
                lemma_mul_inequality(mid as int, q as int, m2 as int);
                assert((mid as int) * (mid as int) * (mid as int) <= x as int) by (nonlinear_arith)
                    requires
                        (mid as int) * (m2 as int) <= (q as int) * (m2 as int),
                        m2 == (mid as int) * (mid as int),
                        x as int == (m2 as int) * (q as int) + (x as int) % (m2 as int),
                        0 <= (x as int) % (m2 as int),
                ;
            } else {
                lemma_mul_inequality(q as int + 1, mid as int, m2 as int);
                assert((x as int) < (mid as int) * (mid as int) * (mid as int)) by (nonlinear_arith)
                    requires
                        ((q as int) + 1) * (m2 as int) <= (mid as int) * (m2 as int),
                        m2 == (mid as int) * (mid as int),
                        x as int == (m2 as int) * (q as int) + (x as int) % (m2 as int),
                        (x as int) % (m2 as int) < m2 as int,
                ;
            }
        }
        if mid <= q {
            lo = mid;
        } else {
            hi = mid;
        }
    }
    proof {
        lemma_cbrt_floor_unique(x as int, lo as int);
    }
    lo
}

/// Integer fifth root by bisection, decided through a division as in `icbrt`.
pub fn iroot5(x: u128) -> (r: u128)
    ensures
        r == root5_floor(x as int),
        r * r * r * r * r <= x,
        (x as int) < (r + 1) * (r + 1) * (r + 1) * (r + 1) * (r + 1),
        r <= 0x400_0000u128,
{
    let mut lo: u128 = 0;
    let mut hi: u128 = 0x400_0000;
    proof {
        assert((hi as int) * (hi as int) * (hi as int) * (hi as int) * (hi as int) > u128::MAX
            as int) by (nonlinear_arith)
            requires
                hi == 0x400_0000u128,
        ;
    }
    while lo + 1 < hi
        invariant
            lo < hi <= 0x400_0000u128,
            (lo as int) * (lo as int) * (lo as int) * (lo as int) * (lo as int) <= x as int,
            (x as int) < (hi as int) * (hi as int) * (hi as int) * (hi as int) * (hi as int),
        decreases hi - lo,
    {
        let mid = lo + (hi - lo) / 2;
        proof {
            assert(mid >= 1);
            assert(1 <= (mid as int) * (mid as int) <= 0x10_0000_0000_0000u128)
                by (nonlinear_arith)
                requires
                    1 <= mid <= 0x400_0000u128,
            ;
        }
        let m2 = mid * mid;
        proof {
            assert(1 <= (m2 as int) * (m2 as int) <= u128::MAX) by (nonlinear_arith)
                requires
                    1 <= m2 <= 0x10_0000_0000_0000u128,
            ;
        }
        let m4 = m2 * m2;
        let q = x / m4;
        proof {
            lemma_fundamental_div_mod(x as int, m4 as int);
            if mid <= q {
                lemma_mul_inequality(mid as int, q as int, m4 as int);
                assert((mid as int) * (mid as int) * (mid as int) * (mid as int) * (mid as int)
                    <= x as int) by (nonlinear_arith)
                    requires
                        (mid as int) * (m4 as int) <= (q as int) * (m4 as int),
                        m2 == (mid as int) * (mid as int),
                        m4 == (m2 as int) * (m2 as int),
                        x as int == (m4 as int) * (q as int) + (x as int) % (m4 as int),
                        0 <= (x as int) % (m4 as int),
                ;
            } else {
                lemma_mul_inequality(q as int + 1, mid as int, m4 as int);
                assert((x as int) < (mid as int) * (mid as int) * (mid as int) * (mid as int) * (
                mid as int)) by (nonlinear_arith)
                    requires
                        ((q as int) + 1) * (m4 as int) <= (mid as int) * (m4 as int),
                        m2 == (mid as int) * (mid as int),
                        m4 == (m2 as int) * (m2 as int),
                        x as int == (m4 as int) * (q as int) + (x as int) % (m4 as int),
                        (x as int) % (m4 as int) < m4 as int,
                ;
            }
        }
        if mid <= q {
            lo = mid;
        } else {
            hi = mid;
        }
    }
    proof {
        lemma_root5_floor_unique(x as int, lo as int);
    }
    lo
}

} // verus!
