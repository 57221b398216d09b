//! Fixed-point scalars.
//!
//! A real value `x` is represented by the integer `x * SCALE`, truncated
//! toward zero. All operations are exact integer arithmetic: each one's
//! contract states the result as a mathematical function of the arguments,
//! so every consumer above can be specified exactly.

use vstd::prelude::*;
use vstd::arithmetic::div_mod::lemma_div_is_ordered;
use vstd::arithmetic::div_mod::lemma_div_nonincreasing;
use vstd::arithmetic::div_mod::lemma_div_pos_is_pos;

verus! {

/// A fixed-point scalar: the real value it stands for is `self / SCALE`.
pub type Fx = i128;

/// 2^32: the representation of the real value one.
pub const SCALE: i128 = 4294967296;

/// Intersection parameters below this threshold (about 1.2e-7 in real
/// terms) are treated as self-intersections and rejected.
pub const EPS: i128 = 512;

/// Intersection parameters above this bound (about 2^18 world units) are
/// beyond the supported world size and rejected, which keeps every later
/// computation inside `i128`.
pub const T_MAX: i128 = 1125899906842624;

pub open spec fn iabs(a: int) -> int {
    if a >= 0 {
        a
    } else {
        -a
    }
}

/// Truncating (round-toward-zero) division: the semantics of `/` on `i128`.
/// Written with Euclidean division on magnitudes so the sign behaviour is
/// explicit.
pub open spec fn tdiv(a: int, b: int) -> int {
    if a == 0 {
        0
    } else if a > 0 && b > 0 {
        a / b
    } else if a < 0 && b < 0 {
        (a * -1) / (b * -1)
    } else if a < 0 {
        ((a * -1) / b) * -1
    } else {
        (a / (b * -1)) * -1
    }
}

/// The fixed-point product of `a` and `b`: `a * b` rescaled back down.
pub open spec fn fmul(a: int, b: int) -> int {
    tdiv(a * b, SCALE as int)
}

/// The fixed-point quotient of `a` by `b`: `a` rescaled up, then divided.
pub open spec fn fdiv(a: int, b: int) -> int {
    tdiv(a * SCALE, b)
}

/// Truncating division by a positive divisor keeps the magnitude's
/// Euclidean quotient and the dividend's sign.
pub proof fn lemma_tdiv_pos(a: int, b: int)
    requires
        b > 0,
    ensures
        iabs(tdiv(a, b)) == iabs(a) / b,
        a >= 0 ==> tdiv(a, b) >= 0,
        a <= 0 ==> tdiv(a, b) <= 0,
{
    if a == 0 {
        assert(iabs(0int) / b == 0) by {
            vstd::arithmetic::div_mod::lemma_div_of0(b);
        }
    } else if a > 0 {
        lemma_div_pos_is_pos(a, b);
    } else {
        lemma_div_pos_is_pos(-a, b);
    }
}

/// The magnitude of a truncating quotient never exceeds the dividend's.
pub proof fn lemma_tdiv_le(a: int, b: int)
    requires
        b > 0,
    ensures
        iabs(tdiv(a, b)) <= iabs(a),
        iabs(a) <= iabs(tdiv(a, b)) * b + b - 1,
{
    lemma_tdiv_pos(a, b);
    lemma_div_nonincreasing(iabs(a), b);
    assert(iabs(a) / b * b + b > iabs(a)) by {
        vstd::arithmetic::div_mod::lemma_fundamental_div_mod(iabs(a), b);
        vstd::arithmetic::div_mod::lemma_mod_bound(iabs(a), b);
    }
}

/// A bound on the dividend gives the matching bound on the quotient.
pub proof fn lemma_tdiv_bound(a: int, b: int, c: int)
    requires
        b > 0,
        iabs(a) <= c,
    ensures
        iabs(tdiv(a, b)) <= c / b,
        iabs(tdiv(a, b)) <= c,
{
    lemma_tdiv_pos(a, b);
    lemma_div_is_ordered(iabs(a), c, b);
    lemma_div_nonincreasing(c, b);
}

/// Bounds on two factors bound the magnitude of their product.
pub proof fn lemma_mul_abs(a: int, b: int, ca: int, cb: int)
    by (nonlinear_arith)
    requires
        iabs(a) <= ca,
        iabs(b) <= cb,
    ensures
        iabs(a * b) <= ca * cb,
{
}

/// Fixed-point multiplication. The one precondition is the machine limit:
/// the raw product must fit in `i128`.
pub fn fx_mul(a: Fx, b: Fx) -> (r: Fx)
    requires
        i128::MIN <= a * b <= i128::MAX,
    ensures
        r == fmul(a as int, b as int),
        iabs(r as int) <= iabs((a * b) as int),
{
    let p: i128 = a * b;
    proof {
        lemma_tdiv_le(p as int, SCALE as int);
    }
    p.checked_div(SCALE).unwrap()
}

/// Flipping the divisor's sign flips the truncating quotient's sign.
pub proof fn lemma_tdiv_neg(a: int, b: int)
    requires
        b < 0,
    ensures
        tdiv(a, b) == -tdiv(a, -b),
{
}

/// The quotient's magnitude never exceeds the dividend's, whatever the
/// divisor's sign.
pub proof fn lemma_tdiv_le_any(a: int, b: int)
    requires
        b != 0,
    ensures
        iabs(tdiv(a, b)) <= iabs(a),
{
    if b > 0 {
        lemma_tdiv_le(a, b);
    } else {
        lemma_tdiv_neg(a, b);
        lemma_tdiv_le(a, -b);
    }
}

/// Fixed-point division. The preconditions are machine limits: a nonzero
/// divisor, and the rescaled dividend fitting in `i128`.
pub fn fx_div(a: Fx, b: Fx) -> (r: Fx)
    requires
        b != 0,
        i128::MIN < a * SCALE <= i128::MAX,
    ensures
        r == fdiv(a as int, b as int),
        iabs(r as int) <= iabs((a * SCALE) as int),
{
    let n: i128 = a * SCALE;
    proof {
        lemma_tdiv_le_any(n as int, b as int);
    }
    n.checked_div(b).unwrap()
}

/// `a` clamped into `[lo, hi]`.
pub open spec fn spec_clamp(a: int, lo: int, hi: int) -> int {
    if a < lo {
        lo
    } else if a > hi {
        hi
    } else {
        a
    }
}

pub fn fx_clamp(a: Fx, lo: Fx, hi: Fx) -> (r: Fx)
    requires
        lo <= hi,
    ensures
        r == spec_clamp(a as int, lo as int, hi as int),
{
    if a < lo {
        lo
    } else if a > hi {
        hi
    } else {
        a
    }
}

/// `sqrt_above(n, r)` walks upward from a root candidate `r` already known
/// not to exceed the true square root, and stops at the last candidate
/// whose square still fits under `n`.
pub open spec fn sqrt_above(n: int, r: int) -> int
    decreases n - r,
    when 0 <= r && r * r <= n
    via sqrt_above_decreases
{
    if (r + 1) * (r + 1) <= n {
        sqrt_above(n, r + 1)
    } else {
        r
    }
}

#[via_fn]
proof fn sqrt_above_decreases(n: int, r: int) {
    assert(r + 1 <= (r + 1) * (r + 1)) by (nonlinear_arith)
        requires
            r >= 0,
    ;
}

/// The integer square root: the greatest `r` with `r * r <= n`.
pub open spec fn isqrt(n: int) -> int {
    sqrt_above(n, 0)
}

proof fn lemma_sqrt_above(n: int, r: int)
    requires
        0 <= r,
        r * r <= n,
    ensures
        sqrt_above(n, r) >= r,
        sqrt_above(n, r) * sqrt_above(n, r) <= n,
        (sqrt_above(n, r) + 1) * (sqrt_above(n, r) + 1) > n,
    decreases n - r,
{
    assert(r + 1 <= (r + 1) * (r + 1)) by (nonlinear_arith)
        requires
            r >= 0,
    ;
    if (r + 1) * (r + 1) <= n {
        lemma_sqrt_above(n, r + 1);
    }
}

/// The characterization of `isqrt`.
pub proof fn lemma_isqrt(n: int)
    requires
        n >= 0,
    ensures
        isqrt(n) >= 0,
        isqrt(n) * isqrt(n) <= n,
        (isqrt(n) + 1) * (isqrt(n) + 1) > n,
{
    lemma_sqrt_above(n, 0);
}

/// Any candidate with the square-root characterization is `isqrt(n)`.
pub proof fn lemma_isqrt_unique(n: int, r: int)
    requires
        n >= 0,
        r >= 0,
        r * r <= n,
        (r + 1) * (r + 1) > n,
    ensures
        r == isqrt(n),
{
    lemma_isqrt(n);
    assert(r == isqrt(n)) by (nonlinear_arith)
        requires
            r >= 0,
            isqrt(n) >= 0,
            r * r <= n,
            (r + 1) * (r + 1) > n,
            isqrt(n) * isqrt(n) <= n,
            (isqrt(n) + 1) * (isqrt(n) + 1) > n,
    ;
}

/// Integer square root by bisection.
fn isqrt_exec(n: i128) -> (r: i128)
    requires
        0 <= n < 0x40000000000000000000000000000000,
    ensures
        r == isqrt(n as int),
        0 <= r < 0x8000000000000000,
{
    if n == 0 {
        proof {
            lemma_isqrt_unique(0, 0);
        }
        return 0;
    }
    let mut lo: i128 = 0;
    let mut hi: i128 = 0x8000000000000000;
    proof {
        assert(n < hi * hi) by (nonlinear_arith)
            requires
                hi == 0x8000000000000000int,
                n < 0x40000000000000000000000000000000int,
        ;
    }
    while lo + 1 < hi
        invariant
            0 <= lo < hi <= 0x8000000000000000,
            lo * lo <= n,
            n < hi * hi,
            n >= 0,
        decreases hi - lo,
    {
        let mid: i128 = lo + (hi - lo).checked_div(2).unwrap();
        proof {
            lemma_div_pos_is_pos(hi - lo, 2);
            lemma_div_nonincreasing(hi - lo, 2);
            assert(lo < mid < hi) by {
                assert((hi - lo) / 2 >= 1) by {
                    lemma_div_is_ordered(2, hi - lo, 2);
                    assert(2int / 2int == 1);
                }
                assert((hi - lo) / 2 < hi - lo) by {
                    vstd::arithmetic::div_mod::lemma_div_decreases(hi - lo, 2);
                }
            }
            assert(mid * mid <= 0x8000000000000000 * 0x8000000000000000) by (nonlinear_arith)
                requires
                    0 <= mid <= 0x8000000000000000int,
            ;
        }
        if mid * mid <= n {
            lo = mid;
        } else {
            hi = mid;
        }
    }
    proof {
        assert(hi == lo + 1);
        lemma_isqrt_unique(n as int, lo as int);
    }
    lo
}

/// The fixed-point square root: the result again carries the `SCALE`
/// factor, so `fx_sqrt` of one `SCALE` is one `SCALE`.
pub open spec fn fsqrt(a: int) -> int {
    isqrt(a * SCALE)
}

pub fn fx_sqrt(a: Fx) -> (r: Fx)
    requires
        0 <= a,
        a * SCALE < 0x40000000000000000000000000000000,
    ensures
        r == fsqrt(a as int),
        0 <= r < 0x8000000000000000,
{
    let n: i128 = a * SCALE;
    isqrt_exec(n)
}

} // verus!
