//! 3D vector algebra over fixed-point scalars.
//!
//! `Vec3` is the executable type; its mathematical model is `V3`, the same
//! triple over unbounded integers. Every operation's contract states the
//! result exactly as a function on `V3`, so geometry built on top can be
//! specified exactly as well.

use vstd::prelude::*;
use vstd::arithmetic::div_mod::lemma_div_is_ordered;
use vstd::arithmetic::div_mod::lemma_div_multiples_vanish;
use crate::fixed::Fx;
use crate::fixed::SCALE;
use crate::fixed::fdiv;
use crate::fixed::fmul;
use crate::fixed::fx_div;
use crate::fixed::fx_mul;
use crate::fixed::fx_sqrt;
use crate::fixed::iabs;
use crate::fixed::isqrt;
use crate::fixed::lemma_isqrt;
use crate::fixed::lemma_mul_abs;
use crate::fixed::lemma_tdiv_bound;
use crate::fixed::lemma_tdiv_le;
use crate::fixed::lemma_tdiv_pos;
use crate::fixed::tdiv;
use crate::utils::Rng;

verus! {

/// A displacement or location in space; the distinction is contextual and
/// must be respected by callers.
#[derive(Clone, Copy, PartialEq, Eq, Structural, Debug)]
pub struct Vec3 {
    pub x: Fx,
    pub y: Fx,
    pub z: Fx,
}

/// Locations are vectors measured from the origin.
pub type Point3 = Vec3;

/// The mathematical model of a `Vec3`: the same triple over unbounded
/// integers.
pub ghost struct V3 {
    pub x: int,
    pub y: int,
    pub z: int,
}

/// A vector's model.
pub open spec fn sv(v: Vec3) -> V3 {
    V3 { x: v.x as int, y: v.y as int, z: v.z as int }
}

/// Every component's magnitude is at most `c`.
pub open spec fn v3_bounded(v: V3, c: int) -> bool {
    iabs(v.x) <= c && iabs(v.y) <= c && iabs(v.z) <= c
}

pub open spec fn vadd(a: V3, b: V3) -> V3 {
    V3 { x: a.x + b.x, y: a.y + b.y, z: a.z + b.z }
}

pub open spec fn vsub(a: V3, b: V3) -> V3 {
    V3 { x: a.x - b.x, y: a.y - b.y, z: a.z - b.z }
}

pub open spec fn vneg(a: V3) -> V3 {
    V3 { x: -a.x, y: -a.y, z: -a.z }
}

/// The component-wise (Hadamard) product.
pub open spec fn vhad(a: V3, b: V3) -> V3 {
    V3 { x: fmul(a.x, b.x), y: fmul(a.y, b.y), z: fmul(a.z, b.z) }
}

/// The scalar product `k * a`.
pub open spec fn vscale(k: int, a: V3) -> V3 {
    V3 { x: fmul(k, a.x), y: fmul(k, a.y), z: fmul(k, a.z) }
}

/// Division of every component by the plain integer `k`.
pub open spec fn vdivi(a: V3, k: int) -> V3 {
    V3 { x: tdiv(a.x, k), y: tdiv(a.y, k), z: tdiv(a.z, k) }
}

pub open spec fn vdot(a: V3, b: V3) -> int {
    fmul(a.x, b.x) + fmul(a.y, b.y) + fmul(a.z, b.z)
}

pub open spec fn vcross(a: V3, b: V3) -> V3 {
    V3 {
        x: fmul(a.y, b.z) - fmul(a.z, b.y),
        y: fmul(a.z, b.x) - fmul(a.x, b.z),
        z: fmul(a.x, b.y) - fmul(a.y, b.x),
    }
}

pub open spec fn vnorm2(a: V3) -> int {
    vdot(a, a)
}

/// The length of `a`, as a fixed-point scalar.
pub open spec fn vlen(a: V3) -> int {
    isqrt(vnorm2(a) * SCALE)
}

/// `a` scaled to unit length: every component is divided by the length.
pub open spec fn vunit(a: V3) -> V3 {
    V3 {
        x: fdiv(a.x, vlen(a)),
        y: fdiv(a.y, vlen(a)),
        z: fdiv(a.z, vlen(a)),
    }
}

/// Component cap under which a dot product of two vectors stays far inside
/// `i128`.
pub const VMAX: i128 = 288230376151711744;

/// A bound on both arguments bounds their dot product.
pub proof fn lemma_vdot_bound(a: V3, b: V3, ca: int, cb: int)
    requires
        v3_bounded(a, ca),
        v3_bounded(b, cb),
        0 <= ca,
        0 <= cb,
    ensures
        iabs(vdot(a, b)) <= 3 * ((ca * cb) / (SCALE as int)),
{
    lemma_mul_abs(a.x, b.x, ca, cb);
    lemma_mul_abs(a.y, b.y, ca, cb);
    lemma_mul_abs(a.z, b.z, ca, cb);
    lemma_tdiv_bound(a.x * b.x, SCALE as int, ca * cb);
    lemma_tdiv_bound(a.y * b.y, SCALE as int, ca * cb);
    lemma_tdiv_bound(a.z * b.z, SCALE as int, ca * cb);
}

/// A bound on the scalar and the vector bounds the scaled vector.
pub proof fn lemma_vscale_bound(k: int, a: V3, ck: int, ca: int)
    requires
        iabs(k) <= ck,
        v3_bounded(a, ca),
        0 <= ck,
        0 <= ca,
    ensures
        v3_bounded(vscale(k, a), (ck * ca) / (SCALE as int)),
{
    lemma_mul_abs(k, a.x, ck, ca);
    lemma_mul_abs(k, a.y, ck, ca);
    lemma_mul_abs(k, a.z, ck, ca);
    lemma_tdiv_bound(k * a.x, SCALE as int, ck * ca);
    lemma_tdiv_bound(k * a.y, SCALE as int, ck * ca);
    lemma_tdiv_bound(k * a.z, SCALE as int, ck * ca);
}

/// A dot product of two vectors within the component cap is far inside
/// `i128`.
pub proof fn lemma_vdot_fits(a: V3, b: V3)
    requires
        v3_bounded(a, VMAX as int),
        v3_bounded(b, VMAX as int),
    ensures
        iabs(vdot(a, b)) <= 0x4000000000000000000000,
        iabs(fmul(a.x, b.x)) <= 0x1000000000000000000000,
        iabs(fmul(a.y, b.y)) <= 0x1000000000000000000000,
        iabs(fmul(a.z, b.z)) <= 0x1000000000000000000000,
        iabs(a.x * b.x) <= 0x100000000000000000000000000000,
        iabs(a.y * b.y) <= 0x100000000000000000000000000000,
        iabs(a.z * b.z) <= 0x100000000000000000000000000000,
{
    lemma_mul_abs(a.x, b.x, VMAX as int, VMAX as int);
    lemma_mul_abs(a.y, b.y, VMAX as int, VMAX as int);
    lemma_mul_abs(a.z, b.z, VMAX as int, VMAX as int);
    lemma_tdiv_bound(a.x * b.x, SCALE as int, VMAX as int * VMAX as int);
    lemma_tdiv_bound(a.y * b.y, SCALE as int, VMAX as int * VMAX as int);
    lemma_tdiv_bound(a.z * b.z, SCALE as int, VMAX as int * VMAX as int);
    assert((VMAX as int * VMAX as int) / (SCALE as int) == 0x1000000000000000000000);
}

impl Vec3 {
    pub fn new(x: Fx, y: Fx, z: Fx) -> (r: Vec3)
        ensures
            r == (Vec3 { x, y, z }),
    {
        Vec3 { x, y, z }
    }

    pub fn zero() -> (r: Vec3)
        ensures
            sv(r) == (V3 { x: 0, y: 0, z: 0 }),
    {
        Vec3 { x: 0, y: 0, z: 0 }
    }

    pub fn add(&self, o: &Vec3) -> (r: Vec3)
        requires
            i128::MIN <= self.x + o.x <= i128::MAX,
            i128::MIN <= self.y + o.y <= i128::MAX,
            i128::MIN <= self.z + o.z <= i128::MAX,
        ensures
            sv(r) == vadd(sv(*self), sv(*o)),
    {
        Vec3 { x: self.x + o.x, y: self.y + o.y, z: self.z + o.z }
    }

    pub fn sub(&self, o: &Vec3) -> (r: Vec3)
        requires
            i128::MIN <= self.x - o.x <= i128::MAX,
            i128::MIN <= self.y - o.y <= i128::MAX,
            i128::MIN <= self.z - o.z <= i128::MAX,
        ensures
            sv(r) == vsub(sv(*self), sv(*o)),
    {
        Vec3 { x: self.x - o.x, y: self.y - o.y, z: self.z - o.z }
    }

    pub fn neg(&self) -> (r: Vec3)
        requires
            i128::MIN < self.x,
            i128::MIN < self.y,
            i128::MIN < self.z,
        ensures
            sv(r) == vneg(sv(*self)),
    {
        Vec3 { x: -self.x, y: -self.y, z: -self.z }
    }

    /// The component-wise (Hadamard) product.
    pub fn hadamard(&self, o: &Vec3) -> (r: Vec3)
        requires
            v3_bounded(sv(*self), VMAX as int),
            v3_bounded(sv(*o), VMAX as int),
        ensures
            sv(r) == vhad(sv(*self), sv(*o)),
    {
        proof {
            lemma_vdot_fits(sv(*self), sv(*o));
        }
        Vec3 {
            x: fx_mul(self.x, o.x),
            y: fx_mul(self.y, o.y),
            z: fx_mul(self.z, o.z),
        }
    }

    /// The scalar product `k * self`.
    pub fn scale(&self, k: Fx) -> (r: Vec3)
        requires
            iabs(k as int) <= VMAX as int,
            v3_bounded(sv(*self), VMAX as int),
        ensures
            sv(r) == vscale(k as int, sv(*self)),
    {
        proof {
            lemma_mul_abs(k as int, self.x as int, VMAX as int, VMAX as int);
            lemma_mul_abs(k as int, self.y as int, VMAX as int, VMAX as int);
            lemma_mul_abs(k as int, self.z as int, VMAX as int, VMAX as int);
        }
        Vec3 {
            x: fx_mul(k, self.x),
            y: fx_mul(k, self.y),
            z: fx_mul(k, self.z),
        }
    }

    /// Division of every component by the positive integer `k`.
    pub fn div_int(&self, k: i128) -> (r: Vec3)
        requires
            k > 0,
        ensures
            sv(r) == vdivi(sv(*self), k as int),
    {
        proof {
            lemma_tdiv_le(self.x as int, k as int);
            lemma_tdiv_le(self.y as int, k as int);
            lemma_tdiv_le(self.z as int, k as int);
        }
        Vec3 {
            x: self.x.checked_div(k).unwrap(),
            y: self.y.checked_div(k).unwrap(),
            z: self.z.checked_div(k).unwrap(),
        }
    }

    pub fn dot(&self, o: &Vec3) -> (r: Fx)
        requires
            v3_bounded(sv(*self), VMAX as int),
            v3_bounded(sv(*o), VMAX as int),
        ensures
            r == vdot(sv(*self), sv(*o)),
            iabs(r as int) <= 0x4000000000000000000000,
    {
        proof {
            lemma_vdot_fits(sv(*self), sv(*o));
        }
        fx_mul(self.x, o.x) + fx_mul(self.y, o.y) + fx_mul(self.z, o.z)
    }

    pub fn cross(&self, o: &Vec3) -> (r: Vec3)
        requires
            v3_bounded(sv(*self), VMAX as int),
            v3_bounded(sv(*o), VMAX as int),
        ensures
            sv(r) == vcross(sv(*self), sv(*o)),
    {
        proof {
            lemma_vdot_fits(sv(*self), sv(*o));
            lemma_mul_abs(self.y as int, o.z as int, VMAX as int, VMAX as int);
            lemma_mul_abs(self.z as int, o.y as int, VMAX as int, VMAX as int);
            lemma_mul_abs(self.z as int, o.x as int, VMAX as int, VMAX as int);
            lemma_mul_abs(self.x as int, o.z as int, VMAX as int, VMAX as int);
            lemma_mul_abs(self.x as int, o.y as int, VMAX as int, VMAX as int);
            lemma_mul_abs(self.y as int, o.x as int, VMAX as int, VMAX as int);
            lemma_tdiv_bound(self.y * o.z, SCALE as int, VMAX as int * VMAX as int);
            lemma_tdiv_bound(self.z * o.y, SCALE as int, VMAX as int * VMAX as int);
            lemma_tdiv_bound(self.z * o.x, SCALE as int, VMAX as int * VMAX as int);
            lemma_tdiv_bound(self.x * o.z, SCALE as int, VMAX as int * VMAX as int);
            lemma_tdiv_bound(self.x * o.y, SCALE as int, VMAX as int * VMAX as int);
            lemma_tdiv_bound(self.y * o.x, SCALE as int, VMAX as int * VMAX as int);
        }
        Vec3 {
            x: fx_mul(self.y, o.z) - fx_mul(self.z, o.y),
            y: fx_mul(self.z, o.x) - fx_mul(self.x, o.z),
            z: fx_mul(self.x, o.y) - fx_mul(self.y, o.x),
        }
    }

    /// The squared length, as a fixed-point scalar.
    pub fn length_squared(&self) -> (r: Fx)
        requires
            v3_bounded(sv(*self), VMAX as int),
        ensures
            r == vnorm2(sv(*self)),
            r >= 0,
            iabs(r as int) <= 0x4000000000000000000000,
    {
        proof {
            lemma_vdot_fits(sv(*self), sv(*self));
            lemma_mul_abs(self.x as int, self.x as int, iabs(self.x as int), iabs(self.x as int));
            lemma_tdiv_pos(self.x * self.x, SCALE as int);
            lemma_tdiv_pos(self.y * self.y, SCALE as int);
            lemma_tdiv_pos(self.z * self.z, SCALE as int);
            assert(self.x * self.x >= 0) by (nonlinear_arith);
            assert(self.y * self.y >= 0) by (nonlinear_arith);
            assert(self.z * self.z >= 0) by (nonlinear_arith);
        }
        self.dot(self)
    }

    /// The length, as a fixed-point scalar.
    pub fn length(&self) -> (r: Fx)
        requires
            v3_bounded(sv(*self), VMAX as int),
        ensures
            r == vlen(sv(*self)),
            r >= 0,
    {
        let n2 = self.length_squared();
        proof {
            lemma_isqrt(n2 as int * SCALE as int);
        }
        fx_sqrt(n2)
    }

    /// Division by a fixed-point scalar. A zero divisor is a contract
    /// violation, excluded by the precondition rather than producing
    /// corrupt values.
    pub fn div_scalar(&self, k: Fx) -> (r: Vec3)
        requires
            k != 0,
            v3_bounded(sv(*self), VMAX as int),
        ensures
            sv(r) == (V3 {
                x: fdiv(self.x as int, k as int),
                y: fdiv(self.y as int, k as int),
                z: fdiv(self.z as int, k as int),
            }),
    {
        proof {
            lemma_mul_abs(self.x as int, SCALE as int, VMAX as int, SCALE as int);
            lemma_mul_abs(self.y as int, SCALE as int, VMAX as int, SCALE as int);
            lemma_mul_abs(self.z as int, SCALE as int, VMAX as int, SCALE as int);
        }
        Vec3 { x: fx_div(self.x, k), y: fx_div(self.y, k), z: fx_div(self.z, k) }
    }

    /// In-place vector addition.
    pub fn add_assign(&mut self, o: &Vec3)
        requires
            i128::MIN <= old(self).x + o.x <= i128::MAX,
            i128::MIN <= old(self).y + o.y <= i128::MAX,
            i128::MIN <= old(self).z + o.z <= i128::MAX,
        ensures
            sv(*final(self)) == vadd(sv(*old(self)), sv(*o)),
    {
        self.x = self.x + o.x;
        self.y = self.y + o.y;
        self.z = self.z + o.z;
    }

    /// In-place vector subtraction.
    pub fn sub_assign(&mut self, o: &Vec3)
        requires
            i128::MIN <= old(self).x - o.x <= i128::MAX,
            i128::MIN <= old(self).y - o.y <= i128::MAX,
            i128::MIN <= old(self).z - o.z <= i128::MAX,
        ensures
            sv(*final(self)) == vsub(sv(*old(self)), sv(*o)),
    {
        self.x = self.x - o.x;
        self.y = self.y - o.y;
        self.z = self.z - o.z;
    }

    /// In-place component-wise product.
    pub fn hadamard_assign(&mut self, o: &Vec3)
        requires
            v3_bounded(sv(*old(self)), VMAX as int),
            v3_bounded(sv(*o), VMAX as int),
        ensures
            sv(*final(self)) == vhad(sv(*old(self)), sv(*o)),
    {
        let r = self.hadamard(o);
        self.x = r.x;
        self.y = r.y;
        self.z = r.z;
    }

    /// In-place scalar product.
    pub fn scale_assign(&mut self, k: Fx)
        requires
            iabs(k as int) <= VMAX as int,
            v3_bounded(sv(*old(self)), VMAX as int),
        ensures
            sv(*final(self)) == vscale(k as int, sv(*old(self))),
    {
        let r = self.scale(k);
        self.x = r.x;
        self.y = r.y;
        self.z = r.z;
    }

    /// `self` scaled to unit length. Zero-length input is a contract
    /// violation, excluded by the precondition.
    pub fn unit(&self) -> (r: Vec3)
        requires
            v3_bounded(sv(*self), VMAX as int),
            vnorm2(sv(*self)) >= 1,
        ensures
            sv(r) == vunit(sv(*self)),
            v3_bounded(sv(r), 2 * SCALE as int),
            vnorm2(sv(r)) >= SCALE - 16,
    {
        let n2 = self.length_squared();
        let l = fx_sqrt(n2);
        proof {
            lemma_isqrt(n2 as int * SCALE as int);
            assert(l >= 1) by (nonlinear_arith)
                requires
                    l == isqrt(n2 as int * SCALE as int),
                    n2 >= 1,
                    l >= 0,
                    (l + 1) * (l + 1) > n2 as int * SCALE as int,
                    SCALE == 4294967296,
            ;
            lemma_mul_abs(self.x as int, SCALE as int, VMAX as int, SCALE as int);
            lemma_mul_abs(self.y as int, SCALE as int, VMAX as int, SCALE as int);
            lemma_mul_abs(self.z as int, SCALE as int, VMAX as int, SCALE as int);
            lemma_unit_norm(sv(*self));
        }
        Vec3 {
            x: fx_div(self.x, l),
            y: fx_div(self.y, l),
            z: fx_div(self.z, l),
        }
    }
}

/// One truncated unit component is bounded by twice the scale.
proof fn lemma_unit_comp(xi: int, n2: int, l: int)
    requires
        n2 >= 1,
        l == isqrt(n2 * SCALE),
        l * l <= n2 * SCALE,
        (l + 1) * (l + 1) > n2 * SCALE,
        l >= 0,
        n2 * SCALE >= xi * xi - 2 * SCALE + 2,
    ensures
        iabs(tdiv(xi * SCALE, l)) <= 2 * SCALE,
        l >= 65536,
{
    assert(l >= 65536 && iabs(xi) <= 2 * l) by (nonlinear_arith)
        requires
            n2 >= 1,
            l >= 0,
            l * l <= n2 * SCALE,
            (l + 1) * (l + 1) > n2 * SCALE,
            n2 * SCALE >= xi * xi - 2 * SCALE + 2,
            SCALE == 4294967296,
    ;
    lemma_mul_abs(xi, SCALE as int, 2 * l, SCALE as int);
    lemma_tdiv_pos(xi * SCALE, l);
    lemma_div_is_ordered(iabs(xi * SCALE), 2 * l * SCALE, l);
    assert((2 * SCALE) * l == 2 * l * SCALE) by (nonlinear_arith);
    lemma_div_multiples_vanish(2 * SCALE as int, l);
}

/// The squared length of a component, after truncation, nearly reaches the
/// squared length scaled down.
proof fn lemma_norm2_term(xi: int)
    ensures
        tdiv(xi * xi, SCALE as int) * SCALE <= xi * xi,
        xi * xi <= tdiv(xi * xi, SCALE as int) * SCALE + SCALE - 1,
        tdiv(xi * xi, SCALE as int) >= 0,
        xi * xi >= 0,
{
    assert(xi * xi >= 0) by (nonlinear_arith);
    lemma_tdiv_pos(xi * xi, SCALE as int);
    lemma_tdiv_le(xi * xi, SCALE as int);
    assert(iabs(tdiv(xi * xi, SCALE as int)) * SCALE <= iabs(xi * xi)) by {
        vstd::arithmetic::div_mod::lemma_fundamental_div_mod(xi * xi, SCALE as int);
        vstd::arithmetic::div_mod::lemma_mod_bound(xi * xi, SCALE as int);
        vstd::arithmetic::mul::lemma_mul_is_commutative(SCALE as int, (xi * xi) / (SCALE as int));
    }
}

/// Normalization bounds: the components of `vunit(v)` are at most two whole
/// units, and its squared length cannot fall more than a few representation
/// steps short of one.
pub proof fn lemma_unit_norm(v: V3)
    requires
        v3_bounded(v, VMAX as int),
        vnorm2(v) >= 1,
    ensures
        v3_bounded(vunit(v), 2 * SCALE as int),
        vnorm2(vunit(v)) >= SCALE - 16,
        vlen(v) >= 65536,
{
    let n2 = vnorm2(v);
    let l = vlen(v);
    lemma_isqrt(n2 * SCALE);
    lemma_norm2_term(v.x);
    lemma_norm2_term(v.y);
    lemma_norm2_term(v.z);
    let s2 = v.x * v.x + v.y * v.y + v.z * v.z;
    assert(n2 * SCALE <= s2) by (nonlinear_arith)
        requires
            n2 == tdiv(v.x * v.x, SCALE as int) + tdiv(v.y * v.y, SCALE as int) + tdiv(
                v.z * v.z,
                SCALE as int,
            ),
            tdiv(v.x * v.x, SCALE as int) * SCALE <= v.x * v.x,
            tdiv(v.y * v.y, SCALE as int) * SCALE <= v.y * v.y,
            tdiv(v.z * v.z, SCALE as int) * SCALE <= v.z * v.z,
            s2 == v.x * v.x + v.y * v.y + v.z * v.z,
    ;
    assert(n2 * SCALE >= v.x * v.x - 2 * SCALE + 2 && n2 * SCALE >= v.y * v.y - 2 * SCALE + 2
        && n2 * SCALE >= v.z * v.z - 2 * SCALE + 2) by (nonlinear_arith)
        requires
            n2 == tdiv(v.x * v.x, SCALE as int) + tdiv(v.y * v.y, SCALE as int) + tdiv(
                v.z * v.z,
                SCALE as int,
            ),
            v.x * v.x <= tdiv(v.x * v.x, SCALE as int) * SCALE + SCALE - 1,
            v.y * v.y <= tdiv(v.y * v.y, SCALE as int) * SCALE + SCALE - 1,
            v.z * v.z <= tdiv(v.z * v.z, SCALE as int) * SCALE + SCALE - 1,
            tdiv(v.x * v.x, SCALE as int) >= 0,
            tdiv(v.y * v.y, SCALE as int) >= 0,
            tdiv(v.z * v.z, SCALE as int) >= 0,
    ;
    lemma_unit_comp(v.x, n2, l);
    lemma_unit_comp(v.y, n2, l);
    lemma_unit_comp(v.z, n2, l);
    let u = vunit(v);
    lemma_unit_norm_lower(v, u, n2, l, s2);
}

/// Squaring a one-sided Euclidean quotient bound.
proof fn lemma_quot_sq(q: int, d: int, l: int)
    by (nonlinear_arith)
    requires
        0 <= q,
        0 <= d,
        1 <= l,
        q <= d * l + l - 1,
    ensures
        q * q <= (d + 1) * (d + 1) * (l * l),
{
}

/// The lower bound on the squared length of a normalized vector.
proof fn lemma_unit_norm_lower(v: V3, u: V3, n2: int, l: int, s2: int)
    requires
        u == vunit(v),
        n2 == vnorm2(v),
        l == vlen(v),
        s2 == v.x * v.x + v.y * v.y + v.z * v.z,
        n2 >= 1,
        l >= 65536,
        l * l <= n2 * SCALE,
        (l + 1) * (l + 1) > n2 * SCALE,
        n2 * SCALE <= s2,
        iabs(u.x) <= 2 * SCALE,
        iabs(u.y) <= 2 * SCALE,
        iabs(u.z) <= 2 * SCALE,
    ensures
        vnorm2(u) >= SCALE - 16,
{
    // Each |u_i| is the Euclidean quotient |v_i| * SCALE / l, so
    // (|u_i| + 1) * l exceeds |v_i| * SCALE; squaring and summing shows the
    // squared quotients nearly exhaust s2 * SCALE^2 / l^2 >= SCALE^2.
    lemma_tdiv_pos(v.x * SCALE, l);
    lemma_tdiv_pos(v.y * SCALE, l);
    lemma_tdiv_pos(v.z * SCALE, l);
    lemma_tdiv_le(v.x * SCALE, l);
    lemma_tdiv_le(v.y * SCALE, l);
    lemma_tdiv_le(v.z * SCALE, l);
    assert(iabs(v.x * SCALE) == iabs(v.x) * SCALE && iabs(v.y * SCALE) == iabs(v.y) * SCALE
        && iabs(v.z * SCALE) == iabs(v.z) * SCALE) by (nonlinear_arith)
        requires
            SCALE == 4294967296,
    ;
    let qx = iabs(v.x) * SCALE;
    let qy = iabs(v.y) * SCALE;
    let qz = iabs(v.z) * SCALE;
    let dx = iabs(u.x);
    let dy = iabs(u.y);
    let dz = iabs(u.z);
    assert(iabs(v.x) * iabs(v.x) == v.x * v.x && iabs(v.y) * iabs(v.y) == v.y * v.y && iabs(v.z)
        * iabs(v.z) == v.z * v.z) by (nonlinear_arith);
    assert(dx * dx == u.x * u.x && dy * dy == u.y * u.y && dz * dz == u.z * u.z)
        by (nonlinear_arith)
        requires
            dx == iabs(u.x),
            dy == iabs(u.y),
            dz == iabs(u.z),
    ;
    assert(qx <= dx * l + l - 1);
    assert(qy <= dy * l + l - 1);
    assert(qz <= dz * l + l - 1);
    // Squaring each quotient bound: q_i^2 <= (d_i + 1)^2 l^2.
    lemma_quot_sq(qx, dx, l);
    lemma_quot_sq(qy, dy, l);
    lemma_quot_sq(qz, dz, l);
    // The squared magnitudes scale: q_i^2 == v_i^2 SCALE^2, so the sum of
    // the q_i^2 is s2 SCALE^2, which is at least l^2 SCALE^2.
    assert(qx * qx == (v.x * v.x) * (SCALE * SCALE) && qy * qy == (v.y * v.y) * (SCALE * SCALE)
        && qz * qz == (v.z * v.z) * (SCALE * SCALE)) by (nonlinear_arith)
        requires
            qx == iabs(v.x) * SCALE,
            qy == iabs(v.y) * SCALE,
            qz == iabs(v.z) * SCALE,
            iabs(v.x) * iabs(v.x) == v.x * v.x,
            iabs(v.y) * iabs(v.y) == v.y * v.y,
            iabs(v.z) * iabs(v.z) == v.z * v.z,
    ;
    assert(l * l <= s2);
    assert((l * l) * (SCALE * SCALE) <= s2 * (SCALE * SCALE)) by (nonlinear_arith)
        requires
            l * l <= s2,
    ;
    assert(s2 * (SCALE * SCALE) == qx * qx + qy * qy + qz * qz) by (nonlinear_arith)
        requires
            s2 == v.x * v.x + v.y * v.y + v.z * v.z,
            qx * qx == (v.x * v.x) * (SCALE * SCALE),
            qy * qy == (v.y * v.y) * (SCALE * SCALE),
            qz * qz == (v.z * v.z) * (SCALE * SCALE),
    ;
    // Divide (l^2 SCALE^2 <= sum of (d_i + 1)^2 l^2) by the positive l^2.
    let sq1 = (dx + 1) * (dx + 1) + (dy + 1) * (dy + 1) + (dz + 1) * (dz + 1);
    assert(qx * qx + qy * qy + qz * qz <= sq1 * (l * l)) by (nonlinear_arith)
        requires
            sq1 == (dx + 1) * (dx + 1) + (dy + 1) * (dy + 1) + (dz + 1) * (dz + 1),
            qx * qx <= (dx + 1) * (dx + 1) * (l * l),
            qy * qy <= (dy + 1) * (dy + 1) * (l * l),
            qz * qz <= (dz + 1) * (dz + 1) * (l * l),
    ;
    assert(SCALE * SCALE <= sq1) by (nonlinear_arith)
        requires
            (l * l) * (SCALE * SCALE) <= sq1 * (l * l),
            l >= 1,
    ;
    assert(sq1 == dx * dx + dy * dy + dz * dz + 2 * (dx + dy + dz) + 3) by (nonlinear_arith)
        requires
            sq1 == (dx + 1) * (dx + 1) + (dy + 1) * (dy + 1) + (dz + 1) * (dz + 1),
    ;
    assert(dx * dx + dy * dy + dz * dz >= SCALE * SCALE - 2 * (dx + dy + dz) - 3);
    lemma_norm2_term(u.x);
    lemma_norm2_term(u.y);
    lemma_norm2_term(u.z);
    assert(vnorm2(u) >= SCALE - 16) by (nonlinear_arith)
        requires
            vnorm2(u) == tdiv(u.x * u.x, SCALE as int) + tdiv(u.y * u.y, SCALE as int) + tdiv(
                u.z * u.z,
                SCALE as int,
            ),
            u.x * u.x <= tdiv(u.x * u.x, SCALE as int) * SCALE + SCALE - 1,
            u.y * u.y <= tdiv(u.y * u.y, SCALE as int) * SCALE + SCALE - 1,
            u.z * u.z <= tdiv(u.z * u.z, SCALE as int) * SCALE + SCALE - 1,
            dx * dx + dy * dy + dz * dz >= SCALE * SCALE - 2 * (dx + dy + dz) - 3,
            dx == iabs(u.x),
            dy == iabs(u.y),
            dz == iabs(u.z),
            dx * dx == u.x * u.x,
            dy * dy == u.y * u.y,
            dz * dz == u.z * u.z,
            dx <= 2 * SCALE,
            dy <= 2 * SCALE,
            dz <= 2 * SCALE,
            SCALE == 4294967296,
    ;
}

/// Normalization returns a unit vector: for any vector of at least unit
/// length, the squared length of its normalization differs from one by at
/// most a few representation steps (16 / 2^32, about 4e-9, in real
/// terms). In particular this holds of every unit vector.
pub proof fn lemma_unit_length(v: V3)
    requires
        v3_bounded(v, VMAX as int),
        vnorm2(v) >= SCALE,
    ensures
        SCALE - 16 <= vnorm2(vunit(v)) <= SCALE + 16,
{
    lemma_unit_norm(v);
    let n2 = vnorm2(v);
    let l = vlen(v);
    let u = vunit(v);
    lemma_isqrt(n2 * SCALE);
    lemma_norm2_term(v.x);
    lemma_norm2_term(v.y);
    lemma_norm2_term(v.z);
    let s2 = v.x * v.x + v.y * v.y + v.z * v.z;
    assert(s2 <= n2 * SCALE + 3 * SCALE - 3);
    lemma_tdiv_pos(v.x * SCALE, l);
    lemma_tdiv_pos(v.y * SCALE, l);
    lemma_tdiv_pos(v.z * SCALE, l);
    assert(iabs(v.x * SCALE) == iabs(v.x) * SCALE && iabs(v.y * SCALE) == iabs(v.y) * SCALE
        && iabs(v.z * SCALE) == iabs(v.z) * SCALE) by (nonlinear_arith)
        requires
            SCALE == 4294967296,
    ;
    let qx = iabs(v.x) * SCALE;
    let qy = iabs(v.y) * SCALE;
    let qz = iabs(v.z) * SCALE;
    let dx = iabs(u.x);
    let dy = iabs(u.y);
    let dz = iabs(u.z);
    // The quotient times the divisor stays below the dividend.
    assert(dx * l <= qx && dy * l <= qy && dz * l <= qz) by {
        vstd::arithmetic::div_mod::lemma_fundamental_div_mod(qx, l);
        vstd::arithmetic::div_mod::lemma_fundamental_div_mod(qy, l);
        vstd::arithmetic::div_mod::lemma_fundamental_div_mod(qz, l);
        vstd::arithmetic::div_mod::lemma_mod_bound(qx, l);
        vstd::arithmetic::div_mod::lemma_mod_bound(qy, l);
        vstd::arithmetic::div_mod::lemma_mod_bound(qz, l);
        assert(l * (qx / l) == (qx / l) * l) by (nonlinear_arith);
        assert(l * (qy / l) == (qy / l) * l) by (nonlinear_arith);
        assert(l * (qz / l) == (qz / l) * l) by (nonlinear_arith);
    }
    assert(dx * dx * (l * l) <= qx * qx && dy * dy * (l * l) <= qy * qy && dz * dz * (l * l) <= qz
        * qz) by (nonlinear_arith)
        requires
            dx * l <= qx,
            dy * l <= qy,
            dz * l <= qz,
            dx >= 0,
            dy >= 0,
            dz >= 0,
            l >= 1,
            qx >= 0,
            qy >= 0,
            qz >= 0,
    ;
    assert(qx * qx == (v.x * v.x) * (SCALE * SCALE) && qy * qy == (v.y * v.y) * (SCALE * SCALE)
        && qz * qz == (v.z * v.z) * (SCALE * SCALE)) by (nonlinear_arith)
        requires
            qx == iabs(v.x) * SCALE,
            qy == iabs(v.y) * SCALE,
            qz == iabs(v.z) * SCALE,
    ;
    let x = dx * dx + dy * dy + dz * dz;
    assert(x * (l * l) <= (SCALE * SCALE) * s2) by (nonlinear_arith)
        requires
            x == dx * dx + dy * dy + dz * dz,
            dx * dx * (l * l) <= qx * qx,
            dy * dy * (l * l) <= qy * qy,
            dz * dz * (l * l) <= qz * qz,
            qx * qx == (v.x * v.x) * (SCALE * SCALE),
            qy * qy == (v.y * v.y) * (SCALE * SCALE),
            qz * qz == (v.z * v.z) * (SCALE * SCALE),
            s2 == v.x * v.x + v.y * v.y + v.z * v.z,
    ;
    // l lies between the scale and n2 (the squared length is at least one
    // whole unit).
    assert(SCALE <= l && l <= n2) by (nonlinear_arith)
        requires
            l >= 0,
            n2 >= SCALE,
            l * l <= n2 * SCALE,
            (l + 1) * (l + 1) > n2 * SCALE,
            SCALE == 4294967296,
    ;
    // Cancel the division: the sum of squared quotients cannot exceed the
    // scaled squared length by more than a few steps.
    assert(x <= SCALE * SCALE + 6 * SCALE) by (nonlinear_arith)
        requires
            x * (l * l) <= (SCALE * SCALE) * s2,
            s2 <= n2 * SCALE + 3 * SCALE - 3,
            l * l <= n2 * SCALE,
            (l + 1) * (l + 1) > n2 * SCALE,
            SCALE <= l,
            l <= n2,
            n2 >= SCALE,
            x >= 0,
            SCALE == 4294967296,
    ;
    lemma_norm2_term(u.x);
    lemma_norm2_term(u.y);
    lemma_norm2_term(u.z);
    assert(dx * dx == u.x * u.x && dy * dy == u.y * u.y && dz * dz == u.z * u.z)
        by (nonlinear_arith)
        requires
            dx == iabs(u.x),
            dy == iabs(u.y),
            dz == iabs(u.z),
    ;
    assert(vnorm2(u) <= SCALE + 16) by (nonlinear_arith)
        requires
            vnorm2(u) == tdiv(u.x * u.x, SCALE as int) + tdiv(u.y * u.y, SCALE as int) + tdiv(
                u.z * u.z,
                SCALE as int,
            ),
            tdiv(u.x * u.x, SCALE as int) * SCALE <= u.x * u.x,
            tdiv(u.y * u.y, SCALE as int) * SCALE <= u.y * u.y,
            tdiv(u.z * u.z, SCALE as int) * SCALE <= u.z * u.z,
            u.x * u.x + u.y * u.y + u.z * u.z == x,
            x <= SCALE * SCALE + 6 * SCALE,
            dx * dx == u.x * u.x,
            dy * dy == u.y * u.y,
            dz * dz == u.z * u.z,
            x == dx * dx + dy * dy + dz * dz,
            SCALE == 4294967296,
    ;
}

/// For any vector at least half a unit long, the squared length of its
/// normalization cannot exceed one by more than a few representation
/// steps (24 / 2^32, about 5.6e-9, in real terms).
pub proof fn lemma_unit_norm_upper(v: V3)
    requires
        v3_bounded(v, VMAX as int),
        vnorm2(v) >= SCALE / 4,
    ensures
        vnorm2(vunit(v)) <= SCALE + 24,
{
    lemma_unit_norm(v);
    let n2 = vnorm2(v);
    let l = vlen(v);
    let u = vunit(v);
    lemma_isqrt(n2 * SCALE);
    lemma_norm2_term(v.x);
    lemma_norm2_term(v.y);
    lemma_norm2_term(v.z);
    let s2 = v.x * v.x + v.y * v.y + v.z * v.z;
    assert(s2 <= n2 * SCALE + 3 * SCALE - 3);
    lemma_tdiv_pos(v.x * SCALE, l);
    lemma_tdiv_pos(v.y * SCALE, l);
    lemma_tdiv_pos(v.z * SCALE, l);
    assert(iabs(v.x * SCALE) == iabs(v.x) * SCALE && iabs(v.y * SCALE) == iabs(v.y) * SCALE
        && iabs(v.z * SCALE) == iabs(v.z) * SCALE) by (nonlinear_arith)
        requires
            SCALE == 4294967296,
    ;
    let qx = iabs(v.x) * SCALE;
    let qy = iabs(v.y) * SCALE;
    let qz = iabs(v.z) * SCALE;
    let dx = iabs(u.x);
    let dy = iabs(u.y);
    let dz = iabs(u.z);
    // The quotient times the divisor stays below the dividend.
    assert(dx * l <= qx && dy * l <= qy && dz * l <= qz) by {
        vstd::arithmetic::div_mod::lemma_fundamental_div_mod(qx, l);
        vstd::arithmetic::div_mod::lemma_fundamental_div_mod(qy, l);
        vstd::arithmetic::div_mod::lemma_fundamental_div_mod(qz, l);
        vstd::arithmetic::div_mod::lemma_mod_bound(qx, l);
        vstd::arithmetic::div_mod::lemma_mod_bound(qy, l);
        vstd::arithmetic::div_mod::lemma_mod_bound(qz, l);
        assert(l * (qx / l) == (qx / l) * l) by (nonlinear_arith);
        assert(l * (qy / l) == (qy / l) * l) by (nonlinear_arith);
        assert(l * (qz / l) == (qz / l) * l) by (nonlinear_arith);
    }
    assert(dx * dx * (l * l) <= qx * qx && dy * dy * (l * l) <= qy * qy && dz * dz * (l * l) <= qz
        * qz) by (nonlinear_arith)
        requires
            dx * l <= qx,
            dy * l <= qy,
            dz * l <= qz,
            dx >= 0,
            dy >= 0,
            dz >= 0,
            l >= 1,
            qx >= 0,
            qy >= 0,
            qz >= 0,
    ;
    assert(qx * qx == (v.x * v.x) * (SCALE * SCALE) && qy * qy == (v.y * v.y) * (SCALE * SCALE)
        && qz * qz == (v.z * v.z) * (SCALE * SCALE)) by (nonlinear_arith)
        requires
            qx == iabs(v.x) * SCALE,
            qy == iabs(v.y) * SCALE,
            qz == iabs(v.z) * SCALE,
    ;
    let x = dx * dx + dy * dy + dz * dz;
    assert(x * (l * l) <= (SCALE * SCALE) * s2) by (nonlinear_arith)
        requires
            x == dx * dx + dy * dy + dz * dz,
            dx * dx * (l * l) <= qx * qx,
            dy * dy * (l * l) <= qy * qy,
            dz * dz * (l * l) <= qz * qz,
            qx * qx == (v.x * v.x) * (SCALE * SCALE),
            qy * qy == (v.y * v.y) * (SCALE * SCALE),
            qz * qz == (v.z * v.z) * (SCALE * SCALE),
            s2 == v.x * v.x + v.y * v.y + v.z * v.z,
    ;
    // The length sits between half the scale and the arithmetic mean of
    // the squared length and the scale.
    assert(SCALE / 2 <= l && 2 * l <= n2 + SCALE) by (nonlinear_arith)
        requires
            l >= 0,
            4 * n2 >= SCALE,
            l * l <= n2 * SCALE,
            (l + 1) * (l + 1) > n2 * SCALE,
            SCALE == 4294967296,
    ;
    // Cancel the division.
    assert(x <= SCALE * SCALE + 24 * SCALE) by (nonlinear_arith)
        requires
            x * (l * l) <= (SCALE * SCALE) * s2,
            s2 <= n2 * SCALE + 3 * SCALE - 3,
            l * l <= n2 * SCALE,
            (l + 1) * (l + 1) > n2 * SCALE,
            SCALE / 2 <= l,
            2 * l <= n2 + SCALE,
            4 * n2 >= SCALE,
            x >= 0,
            SCALE == 4294967296,
    ;
    lemma_norm2_term(u.x);
    lemma_norm2_term(u.y);
    lemma_norm2_term(u.z);
    assert(dx * dx == u.x * u.x && dy * dy == u.y * u.y && dz * dz == u.z * u.z)
        by (nonlinear_arith)
        requires
            dx == iabs(u.x),
            dy == iabs(u.y),
            dz == iabs(u.z),
    ;
    assert(vnorm2(u) <= SCALE + 24) by (nonlinear_arith)
        requires
            vnorm2(u) == tdiv(u.x * u.x, SCALE as int) + tdiv(u.y * u.y, SCALE as int) + tdiv(
                u.z * u.z,
                SCALE as int,
            ),
            tdiv(u.x * u.x, SCALE as int) * SCALE <= u.x * u.x,
            tdiv(u.y * u.y, SCALE as int) * SCALE <= u.y * u.y,
            tdiv(u.z * u.z, SCALE as int) * SCALE <= u.z * u.z,
            u.x * u.x + u.y * u.y + u.z * u.z == x,
            x <= SCALE * SCALE + 24 * SCALE,
            dx * dx == u.x * u.x,
            dy * dy == u.y * u.y,
            dz * dz == u.z * u.z,
            x == dx * dx + dy * dy + dz * dz,
            SCALE == 4294967296,
    ;
}

/// Negating a vector keeps its squared length.
pub proof fn lemma_vneg_norm2(a: V3)
    ensures
        vnorm2(vneg(a)) == vnorm2(a),
{
    assert((-a.x) * (-a.x) == a.x * a.x && (-a.y) * (-a.y) == a.y * a.y && (-a.z) * (-a.z) == a.z
        * a.z) by (nonlinear_arith);
}

/// What a unit-sphere sample looks like: the normalization of some vector
/// drawn inside the unit ball but at least half a unit long, so its
/// squared length is one up to a few representation steps either way.
pub open spec fn unit_sphere_sample(u: V3) -> bool {
    &&& v3_bounded(u, 2 * SCALE as int)
    &&& SCALE - 16 <= vnorm2(u) <= SCALE + 24
    &&& exists|w: V3|
        v3_bounded(w, SCALE as int) && SCALE / 4 <= vnorm2(w) <= SCALE && u == #[trigger] vunit(w)
}

impl Vec3 {
    /// A unit vector drawn uniformly: rejection-sample the unit cube until
    /// the point falls inside the unit ball (but at least half a unit
    /// long, so normalization cannot amplify representation error), then
    /// normalize. The attempt count is capped so the draw provably
    /// terminates; the fall-back after the cap (a fixed axis, reached with
    /// probability about 2^-57) is itself such a normalization.
    pub fn random_unit_sphere(rng: &mut Rng) -> (r: Vec3)
        ensures
            unit_sphere_sample(sv(r)),
    {
        let mut tries: u32 = 0;
        while tries < 64
            invariant
                true,
            decreases 64 - tries,
        {
            let v = Vec3 {
                x: rng.next_in(-SCALE, SCALE),
                y: rng.next_in(-SCALE, SCALE),
                z: rng.next_in(-SCALE, SCALE),
            };
            let n2 = v.length_squared();
            if SCALE / 4 <= n2 && n2 < SCALE {
                let u = v.unit();
                proof {
                    lemma_unit_norm_upper(sv(v));
                    assert(v3_bounded(sv(v), SCALE as int) && SCALE / 4 <= vnorm2(sv(v)) <= SCALE
                        && sv(u) == vunit(sv(v)));
                }
                return u;
            }
            tries = tries + 1;
        }
        proof {
            lemma_axis_unit();
        }
        Vec3 { x: 0, y: 0, z: SCALE }
    }
}

/// The positive z axis is its own normalization.
proof fn lemma_axis_unit()
    ensures
        unit_sphere_sample(V3 { x: 0, y: 0, z: SCALE as int }),
{
    let w = V3 { x: 0, y: 0, z: SCALE as int };
    assert(SCALE as int * SCALE as int == 18446744073709551616);
    assert(tdiv(0, SCALE as int) == 0);
    assert(vnorm2(w) == tdiv(18446744073709551616int, SCALE as int));
    assert(tdiv(18446744073709551616int, SCALE as int) == 18446744073709551616int / 4294967296int);
    assert(18446744073709551616int / 4294967296int == 4294967296int) by (nonlinear_arith);
    assert(vnorm2(w) == SCALE);
    crate::fixed::lemma_isqrt_unique(vnorm2(w) * SCALE, SCALE as int);
    assert(vlen(w) == SCALE);
    assert(tdiv(SCALE as int * SCALE as int, SCALE as int) == SCALE) by {
        vstd::arithmetic::div_mod::lemma_div_multiples_vanish(SCALE as int, SCALE as int);
    }
    assert(vunit(w) == w);
}

} // verus!
