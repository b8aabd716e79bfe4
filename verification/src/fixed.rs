//! Fixed-point scalar arithmetic.
//!
//! A `Fix` stores a real quantity as an `i128` count of millionths:
//! the stored integer `v` stands for the real number `v / SCALE`.
//! Multiplication, division and square root truncate toward zero, and
//! every operation carries an exact contract over the mathematical
//! integers, so the whole geometry pipeline built on top of this type
//! is deterministic and fully specified.

use vstd::prelude::*;
use vstd::arithmetic::div_mod::{
    lemma_div_pos_is_pos, lemma_div_is_ordered, lemma_div_nonincreasing,
    lemma_multiply_divide_le,
};

verus! {

/// Number of stored units per real unit: one unit is a millionth.
pub const SCALE: i128 = 1_000_000;

/// Absolute value of a mathematical integer.
pub open spec fn sabs(x: int) -> int {
    if x < 0 {
        -x
    } else {
        x
    }
}

/// Division truncating toward zero, the rounding used by every scaled
/// operation of this library. The value is unspecified for `b == 0`.
pub open spec fn tdiv(a: int, b: int) -> int {
    if (a < 0) == (b < 0) {
        sabs(a) / sabs(b)
    } else {
        -(sabs(a) / sabs(b))
    }
}

/// Scaled product: the fixed-point representation of the real product.
pub open spec fn fmul(a: int, b: int) -> int {
    tdiv(a * b, SCALE as int)
}

/// Scaled quotient: the fixed-point representation of the real quotient.
pub open spec fn fdiv(a: int, b: int) -> int {
    tdiv(a * (SCALE as int), b)
}

/// Integer square root, rounded down.
pub open spec fn sqrt_nat(x: nat) -> nat
    decreases x,
{
    if x == 0 {
        0
    } else {
        let r = sqrt_nat((x - 1) as nat);
        if (r + 1) * (r + 1) <= x {
            r + 1
        } else {
            r
        }
    }
}

/// Scaled square root: the fixed-point representation of the real square
/// root of the quantity that `a` stands for (meaningful for `a >= 0`).
pub open spec fn fsqrt(a: int) -> int {
    sqrt_nat((a * (SCALE as int)) as nat) as int
}

/// Scaled power: `x` raised `n` times, staying in fixed-point
/// representation.
pub open spec fn pow_frac(x: int, n: nat) -> int
    decreases n,
{
    if n == 0 {
        SCALE as int
    } else {
        fmul(x, pow_frac(x, (n - 1) as nat))
    }
}

/// Ceiling at which the executable power saturates: 256 real units, one
/// above the brightest value an eight-bit colour channel can hold, so
/// that scaling a channel cannot tell the saturated power from the true
/// one (`lemma_pow_channel`).
pub const POW_CAP: i128 = 256_000_000;

/// Largest base magnitude the executable power accepts.
pub const POW_ARG_LIMIT: i128 = 100_000_000_000_000_000_000_000_000_000;

/// Scaled power as the executable code computes it: each partial product
/// is capped at `POW_CAP`.
pub open spec fn pow_sat(x: int, n: nat) -> int
    decreases n,
{
    if n == 0 {
        SCALE as int
    } else {
        let q = fmul(x, pow_sat(x, (n - 1) as nat));
        if q > POW_CAP as int {
            POW_CAP as int
        } else {
            q
        }
    }
}

/// The defining property of the integer square root.
pub proof fn lemma_sqrt_nat(x: nat)
    ensures
        sqrt_nat(x) * sqrt_nat(x) <= x,
        x < (sqrt_nat(x) + 1) * (sqrt_nat(x) + 1),
    decreases x,
{
    if x == 0 {
        let s0 = sqrt_nat(x);
        assert(s0 == 0);
        assert((s0 + 1) * (s0 + 1) == 1) by (nonlinear_arith)
            requires
                s0 == 0,
        ;
    } else {
        lemma_sqrt_nat((x - 1) as nat);
        let r = sqrt_nat((x - 1) as nat);
        assert(r * r <= x - 1);
        assert(x - 1 < (r + 1) * (r + 1));
        if (r + 1) * (r + 1) <= x {
            assert(sqrt_nat(x) == r + 1);
            let q: int = (r + 1) as int;
            assert(x <= q * q);
            assert((q + 1) * (q + 1) > q * q) by (nonlinear_arith)
                requires
                    q >= 0,
            ;
            assert(x < (sqrt_nat(x) + 1) * (sqrt_nat(x) + 1));
        } else {
            assert(sqrt_nat(x) == r);
            assert(x < (r + 1) * (r + 1));
        }
    }
}

/// Any integer bracketed by the square property equals the square root.
pub proof fn lemma_sqrt_unique(x: nat, r: nat)
    requires
        r * r <= x,
        x < (r + 1) * (r + 1),
    ensures
        r == sqrt_nat(x),
{
    lemma_sqrt_nat(x);
    let s = sqrt_nat(x);
    if r < s {
        assert((r + 1) * (r + 1) <= s * s) by (nonlinear_arith)
            requires
                r + 1 <= s,
                r >= 0,
        ;
    }
    if s < r {
        assert((s + 1) * (s + 1) <= r * r) by (nonlinear_arith)
            requires
                s + 1 <= r,
                s >= 0,
        ;
    }
}

/// A product of magnitude-bounded factors is magnitude-bounded.
pub proof fn lemma_mul_bound(a: int, ca: int, b: int, cb: int)
    requires
        -ca <= a <= ca,
        -cb <= b <= cb,
    ensures
        -(ca * cb) <= a * b <= ca * cb,
{
    assert(-(ca * cb) <= a * b <= ca * cb) by (nonlinear_arith)
        requires
            -ca <= a <= ca,
            -cb <= b <= cb,
    ;
}

/// Truncating division never grows the magnitude (for a divisor of
/// magnitude at least one) and keeps the sign rules of the factors.
pub proof fn lemma_tdiv_bound(a: int, b: int)
    requires
        b != 0,
    ensures
        sabs(tdiv(a, b)) <= sabs(a),
        a >= 0 && b > 0 ==> tdiv(a, b) == a / b && tdiv(a, b) >= 0,
        a >= 0 && b > 0 ==> tdiv(a, b) <= a,
        a <= 0 && b > 0 ==> tdiv(a, b) <= 0,
{
    lemma_div_pos_is_pos(sabs(a), sabs(b));
    lemma_div_nonincreasing(sabs(a), sabs(b));
}

/// A bound on the radicand caps the integer square root.
pub proof fn lemma_sqrt_cap(y: nat, c: nat)
    requires
        y < (c + 1) * (c + 1),
    ensures
        sqrt_nat(y) <= c,
{
    lemma_sqrt_nat(y);
    let s = sqrt_nat(y);
    if s > c {
        assert((c + 1) * (c + 1) <= s * s) by (nonlinear_arith)
            requires
                c + 1 <= s,
                c >= 0,
        ;
    }
}

/// Truncating division is monotone on nonnegative numerators.
pub proof fn lemma_tdiv_le(a: int, c: int, b: int)
    requires
        0 <= a <= c,
        b > 0,
    ensures
        tdiv(a, b) <= tdiv(c, b),
{
    lemma_div_is_ordered(a, c, b);
}

/// A numerator below `b * c` has truncating quotient at most `c`.
pub proof fn lemma_tdiv_cap(a: int, b: int, c: int)
    requires
        0 <= a,
        0 < b,
        a <= b * c,
    ensures
        tdiv(a, b) <= c,
{
    lemma_multiply_divide_le(a, b, c);
}

/// The scaled product of values within `[0, SCALE]` stays in `[0, SCALE]`.
pub proof fn lemma_fmul_unit(a: int, b: int)
    requires
        0 <= a <= SCALE as int,
        0 <= b <= SCALE as int,
    ensures
        0 <= fmul(a, b) <= SCALE as int,
        fmul(a, b) <= b,
{
    let s = SCALE as int;
    assert(0 <= a * b && a * b <= s * b && a * b <= s * s) by (nonlinear_arith)
        requires
            0 <= a <= s,
            0 <= b <= s,
    ;
    lemma_tdiv_bound(a * b, s);
    lemma_tdiv_cap(a * b, s, b);
    lemma_tdiv_cap(a * b, s, s);
}

/// `pow_frac` keeps a base in `[0, SCALE]` inside `[0, SCALE]`.
pub proof fn lemma_pow_frac_range(x: int, n: nat)
    requires
        0 <= x <= SCALE as int,
    ensures
        0 <= pow_frac(x, n) <= SCALE as int,
    decreases n,
{
    if n != 0 {
        lemma_pow_frac_range(x, (n - 1) as nat);
        lemma_fmul_unit(x, pow_frac(x, (n - 1) as nat));
    }
}

/// Dividing an exact multiple recovers the factor.
pub proof fn lemma_tdiv_exact(c: int, b: int)
    requires
        0 < b,
        0 <= c,
    ensures
        tdiv(b * c, b) == c,
{
    vstd::arithmetic::div_mod::lemma_div_multiples_vanish(c, b);
}

/// The saturated power of a nonnegative base stays within its ceiling.
pub proof fn lemma_pow_sat_range(x: int, n: nat)
    requires
        0 <= x,
    ensures
        0 <= pow_sat(x, n) <= POW_CAP as int,
    decreases n,
{
    if n != 0 {
        lemma_pow_sat_range(x, (n - 1) as nat);
        let p = pow_sat(x, (n - 1) as nat);
        assert(x * p >= 0) by (nonlinear_arith)
            requires
                0 <= x,
                0 <= p,
        ;
        lemma_tdiv_bound(x * p, SCALE as int);
    }
}

/// For a base within the unit interval the cap never binds: the
/// saturated power equals the true one.
pub proof fn lemma_pow_sat_exact_unit(x: int, n: nat)
    requires
        0 <= x <= SCALE as int,
    ensures
        pow_sat(x, n) == pow_frac(x, n),
    decreases n,
{
    if n != 0 {
        lemma_pow_sat_exact_unit(x, (n - 1) as nat);
        lemma_pow_frac_range(x, (n - 1) as nat);
        lemma_fmul_unit(x, pow_frac(x, (n - 1) as nat));
    }
}

/// The saturated power either equals the true power, or both sit at or
/// above the ceiling.
pub proof fn lemma_pow_sat_rel(x: int, n: nat)
    requires
        0 <= x,
    ensures
        pow_sat(x, n) == pow_frac(x, n) || (pow_sat(x, n) == POW_CAP as int && pow_frac(x, n)
            >= POW_CAP as int),
    decreases n,
{
    let cap = POW_CAP as int;
    let s = SCALE as int;
    if x <= s {
        lemma_pow_sat_exact_unit(x, n);
    } else if n != 0 {
        lemma_pow_sat_rel(x, (n - 1) as nat);
        let ps = pow_sat(x, (n - 1) as nat);
        let pf = pow_frac(x, (n - 1) as nat);
        lemma_pow_sat_range(x, (n - 1) as nat);
        if ps == pf {
        } else {
            assert(ps == cap && pf >= cap);
            assert(x * cap >= s * cap) by (nonlinear_arith)
                requires
                    x >= s,
                    cap > 0,
            ;
            assert(x * cap >= 0) by (nonlinear_arith)
                requires
                    x >= 0,
                    cap >= 0,
            ;
            lemma_tdiv_le(s * cap, x * cap, s);
            lemma_tdiv_exact(cap, s);
            assert(fmul(x, cap) >= cap);
            assert(x * pf >= x * cap) by (nonlinear_arith)
                requires
                    pf >= cap,
                    x >= 0,
            ;
            lemma_tdiv_le(x * cap, x * pf, s);
            assert(fmul(x, pf) >= cap);
        }
    }
}

/// Fixed-point scalar: `self.0` counts millionths of a real unit.
#[derive(Clone, Copy, PartialEq, Eq, Structural, Debug)]
pub struct Fix(pub i128);

impl View for Fix {
    type V = int;

    open spec fn view(&self) -> int {
        self.0 as int
    }
}

/// Truncating signed division on raw representations.
fn div_trunc(a: i128, b: i128) -> (q: i128)
    requires
        b != 0,
        a != i128::MIN,
        b != i128::MIN,
    ensures
        q as int == tdiv(a as int, b as int),
        sabs(q as int) <= sabs(a as int),
{
    let ua: u128 = if a < 0 {
        (-a) as u128
    } else {
        a as u128
    };
    let ub: u128 = if b < 0 {
        (-b) as u128
    } else {
        b as u128
    };
    let uq: u128 = ua / ub;
    proof {
        lemma_div_pos_is_pos(ua as int, ub as int);
        lemma_div_nonincreasing(ua as int, ub as int);
    }
    if (a < 0) != (b < 0) {
        -(uq as i128)
    } else {
        uq as i128
    }
}

/// Integer square root of a raw nonnegative representation.
fn isqrt_u128(x: u128) -> (r: u128)
    ensures
        r as nat == sqrt_nat(x as nat),
        (r as int) * (r as int) <= x as int,
        (x as int) < ((r as int) + 1) * ((r as int) + 1),
{
    let mut lo: u128 = 0;
    let mut hi: u128 = 0x10000000000000000u128;
    proof {
        assert(0x10000000000000000int * 0x10000000000000000int > x as int);
    }
    while hi - lo > 1
        invariant
            lo < hi,
            hi <= 0x10000000000000000u128,
            (lo as int) * (lo as int) <= x as int,
            (x as int) < (hi as int) * (hi as int),
        decreases hi - lo,
    {
        let mid: u128 = lo + (hi - lo) / 2;
        proof {
            let d: int = hi - lo;
            lemma_div_pos_is_pos(d, 2);
            vstd::arithmetic::div_mod::lemma_div_decreases(d, 2);
            assert(1 <= d / 2) by {
                lemma_div_is_ordered(2, d, 2);
            }
            assert(mid < hi);
            assert((mid as int) * (mid as int) < 0x10000000000000000int * 0x10000000000000000int)
                by (nonlinear_arith)
                requires
                    0 <= (mid as int) < 0x10000000000000000int,
            ;
        }
        if mid * mid <= x {
            proof {
                assert((lo as int) <= mid as int);
            }
            lo = mid;
        } else {
            hi = mid;
        }
    }
    proof {
        assert(hi == lo + 1);
        lemma_sqrt_unique(x as nat, lo as nat);
    }
    lo
}

impl Fix {
    /// The scalar holding exactly `units` real units.
    pub fn from_int(units: i64) -> (r: Fix)
        ensures
            r@ == units * (SCALE as int),
    {
        Fix((units as i128) * SCALE)
    }

    /// The scalar with raw representation `raw` (counts of millionths).
    pub fn new(raw: i128) -> (r: Fix)
        ensures
            r@ == raw as int,
    {
        Fix(raw)
    }

    /// The raw representation.
    pub fn raw(self) -> (r: i128)
        ensures
            r as int == self@,
    {
        self.0
    }

    /// Zero.
    pub fn zero() -> (r: Fix)
        ensures
            r@ == 0,
    {
        Fix(0)
    }

    /// One real unit.
    pub fn one() -> (r: Fix)
        ensures
            r@ == SCALE as int,
    {
        Fix(SCALE)
    }

    /// Exact sum.
    pub fn add(self, rhs: Fix) -> (r: Fix)
        requires
            i128::MIN <= self@ + rhs@ <= i128::MAX,
        ensures
            r@ == self@ + rhs@,
    {
        Fix(self.0 + rhs.0)
    }

    /// Exact difference.
    pub fn sub(self, rhs: Fix) -> (r: Fix)
        requires
            i128::MIN <= self@ - rhs@ <= i128::MAX,
        ensures
            r@ == self@ - rhs@,
    {
        Fix(self.0 - rhs.0)
    }

    /// Exact negation.
    pub fn neg(self) -> (r: Fix)
        requires
            self@ != i128::MIN,
        ensures
            r@ == -self@,
    {
        Fix(-self.0)
    }

    /// Scaled product, truncating toward zero.
    pub fn mul(self, rhs: Fix) -> (r: Fix)
        requires
            sabs(self@ * rhs@) <= i128::MAX,
        ensures
            r@ == fmul(self@, rhs@),
            sabs(r@) <= sabs(self@ * rhs@),
    {
        proof {
            lemma_tdiv_bound(self@ * rhs@, SCALE as int);
        }
        Fix(div_trunc(self.0 * rhs.0, SCALE))
    }

    /// Scaled quotient, truncating toward zero.
    pub fn div(self, rhs: Fix) -> (r: Fix)
        requires
            rhs@ != 0,
            rhs@ != i128::MIN,
            sabs(self@ * (SCALE as int)) <= i128::MAX,
        ensures
            r@ == fdiv(self@, rhs@),
            sabs(r@) <= sabs(self@ * (SCALE as int)),
    {
        Fix(div_trunc(self.0 * SCALE, rhs.0))
    }

    /// Scaled square root, rounded down.
    pub fn sqrt(self) -> (r: Fix)
        requires
            0 <= self@,
            self@ * (SCALE as int) <= i128::MAX,
        ensures
            r@ == fsqrt(self@),
            0 <= r@,
    {
        let x: u128 = (self.0 * SCALE) as u128;
        let s = isqrt_u128(x);
        proof {
            assert((s as int) <= 0xffffffffffffffffint) by (nonlinear_arith)
                requires
                    (s as int) * (s as int) <= x as int,
                    x as int <= i128::MAX,
                    0 <= s as int,
            ;
        }
        Fix(s as i128)
    }

    /// The nonnegative base raised `n` times. Each partial product is
    /// capped at `POW_CAP`, which an eight-bit channel scale cannot tell
    /// from the true power; for a base within the unit interval the cap
    /// never binds and the result is the true scaled power.
    pub fn powi(self, n: u32) -> (r: Fix)
        requires
            0 <= self@ <= POW_ARG_LIMIT as int,
        ensures
            r@ == pow_sat(self@, n as nat),
            0 <= r@ <= POW_CAP as int,
            self@ <= SCALE as int ==> r@ == pow_frac(self@, n as nat),
    {
        let mut acc = Fix(SCALE);
        let mut i: u32 = 0;
        while i < n
            invariant
                0 <= self@ <= POW_ARG_LIMIT as int,
                i <= n,
                acc@ == pow_sat(self@, i as nat),
                0 <= acc@ <= POW_CAP as int,
            decreases n - i,
        {
            proof {
                lemma_mul_bound(
                    self@,
                    100_000_000_000_000_000_000_000_000_000,
                    acc@,
                    256_000_000,
                );
                assert(self@ * acc@ >= 0) by (nonlinear_arith)
                    requires
                        0 <= self@,
                        0 <= acc@,
                ;
                lemma_tdiv_bound(self@ * acc@, SCALE as int);
            }
            acc = self.mul(acc);
            if acc.raw() > POW_CAP {
                acc = Fix(POW_CAP);
            }
            i = i + 1;
        }
        proof {
            lemma_pow_sat_range(self@, n as nat);
            if self@ <= SCALE as int {
                lemma_pow_sat_exact_unit(self@, n as nat);
            }
        }
        acc
    }
}

} // verus!
