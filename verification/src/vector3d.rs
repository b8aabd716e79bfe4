//! Three-component vectors and 3x3 matrices over the fixed-point scalar.
//!
//! Every operation has an exact contract phrased with the spec-level
//! mirror functions (`s_add`, `s_dot`, `s_normalize`, ...), which compute
//! over unbounded integers; the executable code is proved to agree with
//! them and to stay within `i128`.

use vstd::prelude::*;
use crate::fixed::{
    Fix, SCALE, sabs, tdiv, fmul, fsqrt, sqrt_nat,
    lemma_sqrt_nat, lemma_mul_bound, lemma_tdiv_bound, lemma_tdiv_cap,
};
use vstd::arithmetic::div_mod::{
    lemma_div_is_ordered, lemma_fundamental_div_mod, lemma_mod_division_less_than_divisor,
};

verus! {

/// Largest magnitude accepted per factor product inside a dot product.
pub const DOT_CAP: i128 = 40_000_000_000_000_000_000_000_000_000_000_000_000;

/// Component bound under which `norm` and `normalize` are defined.
pub const NORM_LIMIT: i128 = 1_000_000_000_000_000_000;

/// Component bound on the result of normalizing any vector.
pub const UNIT_LIMIT: i128 = 2_000_000_000;

/// Component bound on every surface normal handed to shading.
pub const NORMAL_LIMIT: i128 = 10_000_000_000_000;

/// Component bound on the result of `reflect` on bounded arguments.
pub const REFLECT_LIMIT: i128 = 2_000_000_000_000_000_000_000_000;

/// A magnitude interval check on one component.
pub open spec fn in1(x: int, b: int) -> bool {
    -b <= x <= b
}

/// A magnitude interval check on all three components.
pub open spec fn in3(v: (int, int, int), b: int) -> bool {
    in1(v.0, b) && in1(v.1, b) && in1(v.2, b)
}

pub open spec fn s_add(a: (int, int, int), b: (int, int, int)) -> (int, int, int) {
    (a.0 + b.0, a.1 + b.1, a.2 + b.2)
}

pub open spec fn s_sub(a: (int, int, int), b: (int, int, int)) -> (int, int, int) {
    (a.0 - b.0, a.1 - b.1, a.2 - b.2)
}

pub open spec fn s_neg(a: (int, int, int)) -> (int, int, int) {
    (-a.0, -a.1, -a.2)
}

pub open spec fn s_scale(k: int, a: (int, int, int)) -> (int, int, int) {
    (fmul(k, a.0), fmul(k, a.1), fmul(k, a.2))
}

pub open spec fn s_dot(a: (int, int, int), b: (int, int, int)) -> int {
    fmul(a.0, b.0) + fmul(a.1, b.1) + fmul(a.2, b.2)
}

pub open spec fn s_cross(a: (int, int, int), b: (int, int, int)) -> (int, int, int) {
    (
        fmul(a.1, b.2) - fmul(a.2, b.1),
        fmul(a.2, b.0) - fmul(a.0, b.2),
        fmul(a.0, b.1) - fmul(a.1, b.0),
    )
}

/// Euclidean length in fixed-point representation, rounded down.
pub open spec fn s_norm(v: (int, int, int)) -> int {
    fsqrt(s_dot(v, v))
}

/// Direction of `v` scaled to unit length, componentwise truncating;
/// the zero vector when `v` has no length to divide by.
pub open spec fn s_normalize(v: (int, int, int)) -> (int, int, int) {
    if s_dot(v, v) == 0 {
        (0, 0, 0)
    } else {
        let n = s_norm(v);
        (tdiv(v.0 * (SCALE as int), n), tdiv(v.1 * (SCALE as int), n), tdiv(v.2 * (SCALE as int), n))
    }
}

/// Reflection of `v` about the axis `n`: `-(2 (v . n) n - v)`.
pub open spec fn s_reflect(n: (int, int, int), v: (int, int, int)) -> (int, int, int) {
    s_neg(s_sub(s_scale(2 * s_dot(v, n), n), v))
}

/// The vector whose raw components are the given integers.
pub open spec fn v3_of(t: (int, int, int)) -> Vec3 {
    Vec3(Fix(t.0 as i128), Fix(t.1 as i128), Fix(t.2 as i128))
}

/// Packing a vector's view recovers the vector.
pub proof fn lemma_v3_roundtrip(v: Vec3)
    ensures
        v3_of(v@) == v,
{
}

/// The componentwise view of an optional vector.
pub open spec fn opt_v3(o: Option<Vec3>) -> Option<(int, int, int)> {
    match o {
        Option::None => Option::None,
        Option::Some(v) => Option::Some(v@),
    }
}

/// The scaled square of any value is nonnegative and within its plain square.
pub proof fn lemma_fmul_sq(x: int)
    ensures
        0 <= fmul(x, x),
        fmul(x, x) * (SCALE as int) > x * x - (SCALE as int),
        fmul(x, x) * (SCALE as int) <= x * x,
{
    assert(x * x >= 0) by (nonlinear_arith);
    lemma_tdiv_bound(x * x, SCALE as int);
    lemma_fundamental_div_mod(x * x, SCALE as int);
    lemma_mod_division_less_than_divisor(x * x, SCALE as int);
    assert(fmul(x, x) == (x * x) / (SCALE as int));
}

/// A dot product of a vector with itself is nonnegative.
pub proof fn lemma_dot_self_nonneg(v: (int, int, int))
    ensures
        0 <= s_dot(v, v),
        fmul(v.0, v.0) <= s_dot(v, v),
        fmul(v.1, v.1) <= s_dot(v, v),
        fmul(v.2, v.2) <= s_dot(v, v),
{
    lemma_fmul_sq(v.0);
    lemma_fmul_sq(v.1);
    lemma_fmul_sq(v.2);
}

/// A scaled product of nonnegative factors underestimates the plain
/// product by less than one scale unit.
pub proof fn lemma_fmul_lower(a: int, b: int)
    requires
        0 <= a,
        0 <= b,
    ensures
        0 <= fmul(a, b),
        fmul(a, b) * (SCALE as int) <= a * b,
        fmul(a, b) * (SCALE as int) > a * b - (SCALE as int),
{
    assert(a * b >= 0) by (nonlinear_arith)
        requires
            0 <= a,
            0 <= b,
    ;
    lemma_tdiv_bound(a * b, SCALE as int);
    lemma_fundamental_div_mod(a * b, SCALE as int);
    lemma_mod_division_less_than_divisor(a * b, SCALE as int);
    assert(fmul(a, b) == (a * b) / (SCALE as int));
}

/// A scaled product of a bounded pair is bounded by the scaled cap.
pub proof fn lemma_fmul_bound(a: int, b: int, c: int)
    requires
        sabs(a * b) <= c,
        0 <= c,
    ensures
        sabs(fmul(a, b)) <= c / (SCALE as int),
{
    lemma_tdiv_bound(a * b, SCALE as int);
    lemma_div_is_ordered(sabs(a * b), c, SCALE as int);
}

/// Magnitude bounds on the factors bound every term of a dot product.
pub proof fn lemma_dot_bound(a: (int, int, int), b: (int, int, int), ca: int, cb: int)
    requires
        in3(a, ca),
        in3(b, cb),
        0 <= ca,
        0 <= cb,
    ensures
        sabs(a.0 * b.0) <= ca * cb,
        sabs(a.1 * b.1) <= ca * cb,
        sabs(a.2 * b.2) <= ca * cb,
        sabs(s_dot(a, b)) <= 3 * ((ca * cb) / (SCALE as int)),
{
    lemma_mul_bound(a.0, ca, b.0, cb);
    lemma_mul_bound(a.1, ca, b.1, cb);
    lemma_mul_bound(a.2, ca, b.2, cb);
    lemma_fmul_bound(a.0, b.0, ca * cb);
    lemma_fmul_bound(a.1, b.1, ca * cb);
    lemma_fmul_bound(a.2, b.2, ca * cb);
}

/// The norm of a componentwise bounded vector is at most twice the bound.
pub proof fn lemma_norm_bound(v: (int, int, int), c: int)
    requires
        in3(v, c),
        0 <= c,
    ensures
        0 <= s_norm(v),
        s_norm(v) <= 2 * c,
{
    lemma_dot_self_nonneg(v);
    lemma_dot_bound(v, v, c, c);
    let d = s_dot(v, v);
    let x = (d * (SCALE as int)) as nat;
    lemma_sqrt_nat(x);
    let r = sqrt_nat(x);
    let q = (c * c) / (SCALE as int);
    assert(c * c >= 0) by (nonlinear_arith)
        requires
            0 <= c,
    ;
    assert(q * (SCALE as int) <= c * c) by {
        lemma_fundamental_div_mod(c * c, SCALE as int);
    }
    assert(d * (SCALE as int) <= 3 * (c * c)) by (nonlinear_arith)
        requires
            d <= 3 * q,
            q * (SCALE as int) <= c * c,
            SCALE as int == 1_000_000,
            0 <= d,
        ;
    if r > 2 * c {
        assert(r * r >= (2 * c + 1) * (2 * c + 1)) by (nonlinear_arith)
            requires
                r >= 2 * c + 1,
                c >= 0,
        ;
        assert((2 * c + 1) * (2 * c + 1) > 3 * (c * c)) by (nonlinear_arith)
            requires
                c >= 0,
        ;
    }
}

/// The norm vanishes exactly when the self dot product does.
pub proof fn lemma_norm_zero(v: (int, int, int))
    ensures
        s_norm(v) == 0 <==> s_dot(v, v) == 0,
{
    lemma_dot_self_nonneg(v);
    let d = s_dot(v, v);
    let x = (d * (SCALE as int)) as nat;
    lemma_sqrt_nat(x);
    if d == 0 {
        assert(x == 0);
    } else {
        assert(d * (SCALE as int) >= SCALE as int) by (nonlinear_arith)
            requires
                d >= 1,
                SCALE as int == 1_000_000,
        ;
        let s0 = sqrt_nat(x);
        if s0 == 0 {
            assert(x < (s0 + 1) * (s0 + 1));
            assert((s0 + 1) * (s0 + 1) == 1) by (nonlinear_arith)
                requires
                    s0 == 0,
            ;
        }
    }
}

/// Each component of a normalized vector is small: at most `UNIT_LIMIT`.
pub proof fn lemma_normalize_bound(v: (int, int, int))
    requires
        in3(v, NORM_LIMIT as int),
    ensures
        in3(s_normalize(v), UNIT_LIMIT as int),
{
    if s_dot(v, v) != 0 {
        lemma_dot_self_nonneg(v);
        lemma_norm_zero(v);
        let n = s_norm(v);
        assert(n >= 1);
        lemma_normalize_component(v, v.0, n, fmul(v.0, v.0), s_dot(v, v));
        lemma_normalize_component(v, v.1, n, fmul(v.1, v.1), s_dot(v, v));
        lemma_normalize_component(v, v.2, n, fmul(v.2, v.2), s_dot(v, v));
    }
}

/// One component of the normalization quotient is at most `UNIT_LIMIT`,
/// because the norm cannot be much smaller than any single component.
proof fn lemma_normalize_component(v: (int, int, int), w: int, n: int, f: int, d: int)
    requires
        n == s_norm(v),
        f == fmul(w, w),
        d == s_dot(v, v),
        f <= d,
        0 <= d,
        n >= 1,
        sabs(w) <= NORM_LIMIT as int,
    ensures
        sabs(tdiv(w * (SCALE as int), n)) <= UNIT_LIMIT as int,
{
    let s = SCALE as int;
    lemma_fmul_sq(w);
    if sabs(w) <= 2000 {
        lemma_tdiv_bound(w * s, n);
        assert(sabs(w * s) <= 2000 * s) by (nonlinear_arith)
            requires
                sabs(w) <= 2000,
                s == 1_000_000,
        ;
    } else {
        let x = (d * s) as nat;
        lemma_sqrt_nat(x);
        let aw = sabs(w);
        assert(aw == w || aw == -w);
        assert(aw * aw == w * w) by (nonlinear_arith)
            requires
                aw == w || aw == -w,
        ;
        assert(aw * s == sabs(w * s)) by (nonlinear_arith)
            requires
                s > 0,
                aw == sabs(w),
        ;
        assert(d * s >= f * s) by (nonlinear_arith)
            requires
                f <= d,
                s == 1_000_000,
        ;
        assert((n + 1) * (n + 1) > w * w - s);
        assert(2 * n + 2 >= aw) by (nonlinear_arith)
            requires
                (n + 1) * (n + 1) > aw * aw - s,
                aw > 2000,
                s == 1_000_000,
                n >= 0,
        ;
        assert(sabs(w * s) <= n * (4 * s)) by (nonlinear_arith)
            requires
                2 * n + 2 >= aw,
                n >= 1,
                s == 1_000_000,
                sabs(w * s) == aw * s,
                aw > 2000,
        ;
        lemma_tdiv_bound(w * s, n);
        lemma_tdiv_cap(sabs(w * s), n, 4 * s);
        assert(sabs(tdiv(w * s, n)) == tdiv(sabs(w * s), n));
    }
}

/// A three-component vector of fixed-point scalars.
#[derive(Clone, Copy, PartialEq, Eq, Structural, Debug)]
pub struct Vec3(pub Fix, pub Fix, pub Fix);

impl View for Vec3 {
    type V = (int, int, int);

    open spec fn view(&self) -> (int, int, int) {
        (self.0@, self.1@, self.2@)
    }
}

impl Vec3 {
    /// First component.
    pub fn i(&self) -> (r: Fix)
        ensures
            r@ == self@.0,
    {
        self.0
    }

    /// Second component.
    pub fn j(&self) -> (r: Fix)
        ensures
            r@ == self@.1,
    {
        self.1
    }

    /// Third component.
    pub fn k(&self) -> (r: Fix)
        ensures
            r@ == self@.2,
    {
        self.2
    }

    /// The zero vector.
    pub fn zero() -> (r: Vec3)
        ensures
            r@ == (0int, 0int, 0int),
    {
        Vec3(Fix(0), Fix(0), Fix(0))
    }

    /// Componentwise sum.
    pub fn add(self, rhs: Vec3) -> (r: Vec3)
        requires
            i128::MIN <= self@.0 + rhs@.0 <= i128::MAX,
            i128::MIN <= self@.1 + rhs@.1 <= i128::MAX,
            i128::MIN <= self@.2 + rhs@.2 <= i128::MAX,
        ensures
            r@ == s_add(self@, rhs@),
    {
        Vec3(self.0.add(rhs.0), self.1.add(rhs.1), self.2.add(rhs.2))
    }

    /// Componentwise difference.
    pub fn sub(self, rhs: Vec3) -> (r: Vec3)
        requires
            i128::MIN <= self@.0 - rhs@.0 <= i128::MAX,
            i128::MIN <= self@.1 - rhs@.1 <= i128::MAX,
            i128::MIN <= self@.2 - rhs@.2 <= i128::MAX,
        ensures
            r@ == s_sub(self@, rhs@),
    {
        Vec3(self.0.sub(rhs.0), self.1.sub(rhs.1), self.2.sub(rhs.2))
    }

    /// Componentwise negation.
    pub fn neg(self) -> (r: Vec3)
        requires
            self@.0 != i128::MIN,
            self@.1 != i128::MIN,
            self@.2 != i128::MIN,
        ensures
            r@ == s_neg(self@),
    {
        Vec3(self.0.neg(), self.1.neg(), self.2.neg())
    }

    /// The vector scaled by `k`.
    pub fn scale(self, k: Fix) -> (r: Vec3)
        requires
            sabs(k@ * self@.0) <= i128::MAX,
            sabs(k@ * self@.1) <= i128::MAX,
            sabs(k@ * self@.2) <= i128::MAX,
        ensures
            r@ == s_scale(k@, self@),
    {
        Vec3(k.mul(self.0), k.mul(self.1), k.mul(self.2))
    }

    /// Scaled inner product.
    pub fn dot(self, rhs: Vec3) -> (r: Fix)
        requires
            sabs(self@.0 * rhs@.0) <= DOT_CAP as int,
            sabs(self@.1 * rhs@.1) <= DOT_CAP as int,
            sabs(self@.2 * rhs@.2) <= DOT_CAP as int,
        ensures
            r@ == s_dot(self@, rhs@),
    {
        proof {
            lemma_fmul_bound(self@.0, rhs@.0, DOT_CAP as int);
            lemma_fmul_bound(self@.1, rhs@.1, DOT_CAP as int);
            lemma_fmul_bound(self@.2, rhs@.2, DOT_CAP as int);
        }
        let a = self.0.mul(rhs.0);
        let b = self.1.mul(rhs.1);
        let c = self.2.mul(rhs.2);
        a.add(b).add(c)
    }

    /// Scaled cross product.
    pub fn cross(self, rhs: Vec3) -> (r: Vec3)
        requires
            in3(self@, NORMAL_LIMIT as int),
            in3(rhs@, NORMAL_LIMIT as int),
        ensures
            r@ == s_cross(self@, rhs@),
            in3(self@, UNIT_LIMIT as int) && in3(rhs@, UNIT_LIMIT as int)
                ==> in3(r@, NORMAL_LIMIT as int),
    {
        proof {
            lemma_cross_bounds(self@, rhs@);
        }
        let x = self.1.mul(rhs.2).sub(self.2.mul(rhs.1));
        let y = self.2.mul(rhs.0).sub(self.0.mul(rhs.2));
        let z = self.0.mul(rhs.1).sub(self.1.mul(rhs.0));
        Vec3(x, y, z)
    }

    /// Euclidean length, rounded down in fixed-point representation.
    pub fn norm(self) -> (r: Fix)
        requires
            in3(self@, NORM_LIMIT as int),
        ensures
            r@ == s_norm(self@),
            0 <= r@ <= 2 * NORM_LIMIT as int,
    {
        proof {
            lemma_dot_bound(self@, self@, NORM_LIMIT as int, NORM_LIMIT as int);
            lemma_dot_self_nonneg(self@);
            lemma_norm_bound(self@, NORM_LIMIT as int);
        }
        let d = self.dot(self);
        d.sqrt()
    }

    /// Direction of `self` at unit length; the zero vector if `self`
    /// has no length to divide by.
    pub fn normalize(self) -> (r: Vec3)
        requires
            in3(self@, NORM_LIMIT as int),
        ensures
            r@ == s_normalize(self@),
            in3(r@, UNIT_LIMIT as int),
    {
        proof {
            lemma_dot_bound(self@, self@, NORM_LIMIT as int, NORM_LIMIT as int);
            lemma_dot_self_nonneg(self@);
            lemma_norm_zero(self@);
            lemma_norm_bound(self@, NORM_LIMIT as int);
            lemma_normalize_bound(self@);
        }
        let n = self.norm();
        if n.raw() == 0 {
            Vec3::zero()
        } else {
            Vec3(self.0.div(n), self.1.div(n), self.2.div(n))
        }
    }

    /// Whether every component's magnitude stays within `b`.
    pub fn within(&self, b: i128) -> (r: bool)
        requires
            0 <= b,
        ensures
            r == in3(self@, b as int),
    {
        -b <= self.0.0 && self.0.0 <= b && -b <= self.1.0 && self.1.0 <= b && -b <= self.2.0
            && self.2.0 <= b
    }

    /// Reflection of `v` about the axis `self`.
    pub fn reflect(self, v: Vec3) -> (r: Vec3)
        requires
            in3(self@, NORMAL_LIMIT as int),
            in3(v@, UNIT_LIMIT as int),
        ensures
            r@ == s_reflect(self@, v@),
            in3(r@, REFLECT_LIMIT as int),
    {
        proof {
            lemma_dot_bound(v@, self@, UNIT_LIMIT as int, NORMAL_LIMIT as int);
            lemma_reflect_bounds(self@, v@);
        }
        let d = v.dot(self);
        let dd = d.add(d);
        let scaled = self.scale(dd);
        let r = scaled.sub(v);
        r.neg()
    }
}

/// Bounds for the intermediate products of a cross product.
proof fn lemma_cross_bounds(a: (int, int, int), b: (int, int, int))
    requires
        in3(a, NORMAL_LIMIT as int),
        in3(b, NORMAL_LIMIT as int),
    ensures
        sabs(a.1 * b.2) <= i128::MAX,
        sabs(a.2 * b.1) <= i128::MAX,
        sabs(a.2 * b.0) <= i128::MAX,
        sabs(a.0 * b.2) <= i128::MAX,
        sabs(a.0 * b.1) <= i128::MAX,
        sabs(a.1 * b.0) <= i128::MAX,
        sabs(fmul(a.1, b.2)) <= 100_000_000_000_000_000_000,
        sabs(fmul(a.2, b.1)) <= 100_000_000_000_000_000_000,
        sabs(fmul(a.2, b.0)) <= 100_000_000_000_000_000_000,
        sabs(fmul(a.0, b.2)) <= 100_000_000_000_000_000_000,
        sabs(fmul(a.0, b.1)) <= 100_000_000_000_000_000_000,
        sabs(fmul(a.1, b.0)) <= 100_000_000_000_000_000_000,
        in3(a, UNIT_LIMIT as int) && in3(b, UNIT_LIMIT as int) ==> in3(
            s_cross(a, b),
            NORMAL_LIMIT as int,
        ),
{
    let nl = NORMAL_LIMIT as int;
    let ul = UNIT_LIMIT as int;
    lemma_mul_bound(a.1, nl, b.2, nl);
    lemma_mul_bound(a.2, nl, b.1, nl);
    lemma_mul_bound(a.2, nl, b.0, nl);
    lemma_mul_bound(a.0, nl, b.2, nl);
    lemma_mul_bound(a.0, nl, b.1, nl);
    lemma_mul_bound(a.1, nl, b.0, nl);
    lemma_fmul_bound(a.1, b.2, nl * nl);
    lemma_fmul_bound(a.2, b.1, nl * nl);
    lemma_fmul_bound(a.2, b.0, nl * nl);
    lemma_fmul_bound(a.0, b.2, nl * nl);
    lemma_fmul_bound(a.0, b.1, nl * nl);
    lemma_fmul_bound(a.1, b.0, nl * nl);
    if in3(a, ul) && in3(b, ul) {
        lemma_mul_bound(a.1, ul, b.2, ul);
        lemma_mul_bound(a.2, ul, b.1, ul);
        lemma_mul_bound(a.2, ul, b.0, ul);
        lemma_mul_bound(a.0, ul, b.2, ul);
        lemma_mul_bound(a.0, ul, b.1, ul);
        lemma_mul_bound(a.1, ul, b.0, ul);
        lemma_fmul_bound(a.1, b.2, ul * ul);
        lemma_fmul_bound(a.2, b.1, ul * ul);
        lemma_fmul_bound(a.2, b.0, ul * ul);
        lemma_fmul_bound(a.0, b.2, ul * ul);
        lemma_fmul_bound(a.0, b.1, ul * ul);
        lemma_fmul_bound(a.1, b.0, ul * ul);
    }
}

/// Bounds for the intermediate products of a reflection.
proof fn lemma_reflect_bounds(n: (int, int, int), v: (int, int, int))
    requires
        in3(n, NORMAL_LIMIT as int),
        in3(v, UNIT_LIMIT as int),
    ensures
        sabs(s_dot(v, n)) <= 60_000_000_000_000_000,
        sabs((2 * s_dot(v, n)) * n.0) <= i128::MAX,
        sabs((2 * s_dot(v, n)) * n.1) <= i128::MAX,
        sabs((2 * s_dot(v, n)) * n.2) <= i128::MAX,
        in3(s_scale(2 * s_dot(v, n), n), 1_300_000_000_000_000_000_000_000),
        in3(s_reflect(n, v), REFLECT_LIMIT as int),
{
    let nl = NORMAL_LIMIT as int;
    let ul = UNIT_LIMIT as int;
    lemma_dot_bound(v, n, ul, nl);
    let d2 = 2 * s_dot(v, n);
    lemma_mul_bound(d2, 120_000_000_000_000_000, n.0, nl);
    lemma_mul_bound(d2, 120_000_000_000_000_000, n.1, nl);
    lemma_mul_bound(d2, 120_000_000_000_000_000, n.2, nl);
    lemma_fmul_bound(d2, n.0, 1_200_000_000_000_000_000_000_000_000_000);
    lemma_fmul_bound(d2, n.1, 1_200_000_000_000_000_000_000_000_000_000);
    lemma_fmul_bound(d2, n.2, 1_200_000_000_000_000_000_000_000_000_000);
}

/// A 3x3 matrix stored as three column vectors.
#[derive(Clone, Copy, PartialEq, Eq, Structural, Debug)]
pub struct Matrix3(pub Vec3, pub Vec3, pub Vec3);

impl View for Matrix3 {
    type V = ((int, int, int), (int, int, int), (int, int, int));

    open spec fn view(&self) -> ((int, int, int), (int, int, int), (int, int, int)) {
        (self.0@, self.1@, self.2@)
    }
}

/// Component bound under which matrix operations are defined.
pub const MATRIX_LIMIT: i128 = 1_000_000_000_000_000;

/// All nine entries within a magnitude bound.
pub open spec fn m_in(m: ((int, int, int), (int, int, int), (int, int, int)), b: int) -> bool {
    in3(m.0, b) && in3(m.1, b) && in3(m.2, b)
}

/// Row extraction from column-stored entries.
pub open spec fn s_row1(m: ((int, int, int), (int, int, int), (int, int, int))) -> (int, int, int) {
    (m.0.0, m.1.0, m.2.0)
}

pub open spec fn s_row2(m: ((int, int, int), (int, int, int), (int, int, int))) -> (int, int, int) {
    (m.0.1, m.1.1, m.2.1)
}

pub open spec fn s_row3(m: ((int, int, int), (int, int, int), (int, int, int))) -> (int, int, int) {
    (m.0.2, m.1.2, m.2.2)
}

/// Matrix-vector product by rows.
pub open spec fn s_mat_vec(
    m: ((int, int, int), (int, int, int), (int, int, int)),
    v: (int, int, int),
) -> (int, int, int) {
    (s_dot(s_row1(m), v), s_dot(s_row2(m), v), s_dot(s_row3(m), v))
}

/// Sum of squared entry differences: the approximate-equality metric.
pub open spec fn s_mdist(
    a: ((int, int, int), (int, int, int), (int, int, int)),
    b: ((int, int, int), (int, int, int), (int, int, int)),
) -> int {
    s_dot(s_sub(a.0, b.0), s_sub(a.0, b.0)) + s_dot(s_sub(a.1, b.1), s_sub(a.1, b.1)) + s_dot(
        s_sub(a.2, b.2),
        s_sub(a.2, b.2),
    )
}

impl Matrix3 {
    /// First row.
    pub fn row1(&self) -> (r: Vec3)
        ensures
            r@ == s_row1(self@),
    {
        Vec3(self.0.0, self.1.0, self.2.0)
    }

    /// Second row.
    pub fn row2(&self) -> (r: Vec3)
        ensures
            r@ == s_row2(self@),
    {
        Vec3(self.0.1, self.1.1, self.2.1)
    }

    /// Third row.
    pub fn row3(&self) -> (r: Vec3)
        ensures
            r@ == s_row3(self@),
    {
        Vec3(self.0.2, self.1.2, self.2.2)
    }

    /// The identity matrix.
    pub fn identity() -> (r: Matrix3)
        ensures
            r@.0 == (SCALE as int, 0int, 0int),
            r@.1 == (0int, SCALE as int, 0int),
            r@.2 == (0int, 0int, SCALE as int),
    {
        Matrix3(
            Vec3(Fix(SCALE), Fix(0), Fix(0)),
            Vec3(Fix(0), Fix(SCALE), Fix(0)),
            Vec3(Fix(0), Fix(0), Fix(SCALE)),
        )
    }

    /// The matrix with the given columns.
    pub fn with_columns(col1: Vec3, col2: Vec3, col3: Vec3) -> (r: Matrix3)
        ensures
            r@ == (col1@, col2@, col3@),
    {
        Matrix3(col1, col2, col3)
    }

    /// Sum of squared entry differences between two matrices.
    pub fn dist(m1: Matrix3, m2: Matrix3) -> (r: Fix)
        requires
            m_in(m1@, MATRIX_LIMIT as int),
            m_in(m2@, MATRIX_LIMIT as int),
        ensures
            r@ == s_mdist(m1@, m2@),
    {
        proof {
            lemma_dot_bound(
                s_sub(m1@.0, m2@.0),
                s_sub(m1@.0, m2@.0),
                2_000_000_000_000_000,
                2_000_000_000_000_000,
            );
            lemma_dot_bound(
                s_sub(m1@.1, m2@.1),
                s_sub(m1@.1, m2@.1),
                2_000_000_000_000_000,
                2_000_000_000_000_000,
            );
            lemma_dot_bound(
                s_sub(m1@.2, m2@.2),
                s_sub(m1@.2, m2@.2),
                2_000_000_000_000_000,
                2_000_000_000_000_000,
            );
        }
        let a = m1.0.sub(m2.0);
        let b = m1.1.sub(m2.1);
        let c = m1.2.sub(m2.2);
        let x = a.dot(a);
        let y = b.dot(b);
        let z = c.dot(c);
        x.add(y).add(z)
    }

    /// Matrix-vector product.
    pub fn mul_vec(self, v: Vec3) -> (r: Vec3)
        requires
            m_in(self@, MATRIX_LIMIT as int),
            in3(v@, MATRIX_LIMIT as int),
        ensures
            r@ == s_mat_vec(self@, v@),
    {
        proof {
            lemma_dot_bound(s_row1(self@), v@, MATRIX_LIMIT as int, MATRIX_LIMIT as int);
            lemma_dot_bound(s_row2(self@), v@, MATRIX_LIMIT as int, MATRIX_LIMIT as int);
            lemma_dot_bound(s_row3(self@), v@, MATRIX_LIMIT as int, MATRIX_LIMIT as int);
        }
        let r1 = self.row1();
        let r2 = self.row2();
        let r3 = self.row3();
        Vec3(r1.dot(v), r2.dot(v), r3.dot(v))
    }

    /// Matrix-matrix product, column by column.
    pub fn mul_mat(self, rhs: Matrix3) -> (r: Matrix3)
        requires
            m_in(self@, MATRIX_LIMIT as int),
            m_in(rhs@, MATRIX_LIMIT as int),
        ensures
            r@ == (
                s_mat_vec(self@, rhs@.0),
                s_mat_vec(self@, rhs@.1),
                s_mat_vec(self@, rhs@.2),
            ),
    {
        Matrix3(self.mul_vec(rhs.0), self.mul_vec(rhs.1), self.mul_vec(rhs.2))
    }
}

} // verus!
