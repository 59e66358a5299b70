//! The scalar type of the renderer: a signed fixed-point number.
//!
//! A scalar is stored as a count of `SCALE`-ths of a unit in an `i64`, so
//! every operation has an exact integer meaning: products and quotients are
//! rescaled and rounded toward zero, and square roots round down.  The spec
//! functions below state those meanings, and every arithmetic method is
//! proved against them.

use vstd::arithmetic::div_mod::{
    lemma_div_is_ordered, lemma_div_is_ordered_by_denominator, lemma_div_pos_is_pos,
};
use vstd::prelude::*;

verus! {

/// Raw steps in one unit of the scalar.
pub const SCALE: i64 = 65536;

/// Magnitude of an integer.
pub open spec fn iabs(a: int) -> int {
    if a >= 0 {
        a
    } else {
        -a
    }
}

/// Division of `a` by `b != 0`, rounded toward zero, as the machine divides.
pub open spec fn tdiv(a: int, b: int) -> int
    recommends
        b != 0,
{
    if (a < 0) == (b < 0) {
        iabs(a) / iabs(b)
    } else {
        -(iabs(a) / iabs(b))
    }
}

/// The exact meaning of the scalar product: multiply the raw values and
/// rescale, rounding toward zero.
pub open spec fn fx_mul_spec(a: int, b: int) -> int {
    tdiv(a * b, SCALE as int)
}

/// The exact meaning of the scalar quotient: rescale the dividend and
/// divide, rounding toward zero.
pub open spec fn fx_div_spec(a: int, b: int) -> int
    recommends
        b != 0,
{
    tdiv(a * SCALE, b)
}

/// `r` is the square root of the scalar with raw value `x`, rounded down:
/// the raw result squared brackets `x * SCALE`.
pub open spec fn fx_sqrt_spec(x: int, r: int) -> bool {
    &&& 0 <= r
    &&& r * r <= x * SCALE
    &&& x * SCALE < (r + 1) * (r + 1)
}

/// The integer square root of `n`, rounded down, as a closed-form spec value.
pub open spec fn isqrt_spec(n: int) -> int
    decreases n,
{
    if n <= 0 {
        0
    } else {
        let r = isqrt_spec(n - 1);
        if (r + 1) * (r + 1) <= n {
            r + 1
        } else {
            r
        }
    }
}

/// `isqrt_spec(n)` squared brackets `n`.
pub proof fn lemma_isqrt_spec_brackets(n: int)
    requires
        n >= 0,
    ensures
        0 <= isqrt_spec(n),
        isqrt_spec(n) * isqrt_spec(n) <= n,
        n < (isqrt_spec(n) + 1) * (isqrt_spec(n) + 1),
    decreases n,
{
    if n > 0 {
        lemma_isqrt_spec_brackets(n - 1);
        let r = isqrt_spec(n - 1);
        if (r + 1) * (r + 1) <= n {
            assert((r + 2) * (r + 2) > (r + 1) * (r + 1)) by (nonlinear_arith)
                requires
                    r >= 0,
            ;
        }
    }
}

/// Two integers whose squares bracket the same value are equal.
pub proof fn lemma_sqrt_unique(n: int, r1: int, r2: int)
    by (nonlinear_arith)
    requires
        0 <= r1,
        0 <= r2,
        r1 * r1 <= n < (r1 + 1) * (r1 + 1),
        r2 * r2 <= n < (r2 + 1) * (r2 + 1),
    ensures
        r1 == r2,
{
}

/// A signed fixed-point scalar: `bits` counts `SCALE`-ths of a unit.
#[derive(Clone, Copy, Debug, PartialEq, Eq, Structural)]
pub struct Fx {
    pub bits: i64,
}

impl View for Fx {
    type V = int;

    open spec fn view(&self) -> int {
        self.bits as int
    }
}

impl Fx {
    /// The scalar with the given raw value.
    pub fn from_bits(bits: i64) -> (r: Fx)
        ensures
            r@ == bits,
    {
        Fx { bits }
    }

    /// The scalar equal to the integer `i`.
    pub fn from_int(i: i64) -> (r: Fx)
        requires
            -140737488355328 <= i <= 140737488355327,
        ensures
            r@ == i * SCALE,
    {
        Fx { bits: i * 65536 }
    }

    /// Zero.
    pub fn zero() -> (r: Fx)
        ensures
            r@ == 0,
    {
        Fx { bits: 0 }
    }

    /// One unit.
    pub fn one() -> (r: Fx)
        ensures
            r@ == SCALE,
    {
        Fx { bits: 65536 }
    }

    pub fn add(self, rhs: Fx) -> (r: Fx)
        requires
            i64::MIN <= self@ + rhs@ <= i64::MAX,
        ensures
            r@ == self@ + rhs@,
    {
        Fx { bits: self.bits + rhs.bits }
    }

    pub fn sub(self, rhs: Fx) -> (r: Fx)
        requires
            i64::MIN <= self@ - rhs@ <= i64::MAX,
        ensures
            r@ == self@ - rhs@,
    {
        Fx { bits: self.bits - rhs.bits }
    }

    pub fn neg(self) -> (r: Fx)
        requires
            self@ != i64::MIN,
        ensures
            r@ == -self@,
    {
        Fx { bits: -self.bits }
    }

    /// Fixed-point product, rounded toward zero.
    pub fn mul(self, rhs: Fx) -> (r: Fx)
        requires
            -0x7fffffffffffffff <= fx_mul_spec(self@, rhs@) <= 0x7fffffffffffffff,
        ensures
            r@ == fx_mul_spec(self@, rhs@),
    {
        proof {
            assert(-0x40000000000000000000000000000000 <= self@ * rhs@
                <= 0x40000000000000000000000000000000) by (nonlinear_arith)
                requires
                    -0x8000000000000000 <= self@ <= 0x7fffffffffffffff,
                    -0x8000000000000000 <= rhs@ <= 0x7fffffffffffffff,
            ;
        }
        let p: i128 = (self.bits as i128) * (rhs.bits as i128);
        let neg: bool = p < 0;
        let mag: u128 = if neg {
            (-p) as u128
        } else {
            p as u128
        };
        let q: u128 = mag / 65536;
        proof {
            lemma_div_pos_is_pos(mag as int, 65536);
            assert(q == iabs(self@ * rhs@) / (SCALE as int));
        }
        let bits: i64 = if neg {
            -(q as i64)
        } else {
            q as i64
        };
        Fx { bits }
    }

    /// Fixed-point quotient, rounded toward zero.
    pub fn div(self, rhs: Fx) -> (r: Fx)
        requires
            rhs@ != 0,
            -0x7fffffffffffffff <= fx_div_spec(self@, rhs@) <= 0x7fffffffffffffff,
        ensures
            r@ == fx_div_spec(self@, rhs@),
    {
        let na: bool = self.bits < 0;
        let nb: bool = rhs.bits < 0;
        let ma: u128 = if na {
            (-(self.bits as i128)) as u128
        } else {
            self.bits as u128
        };
        let mb: u128 = if nb {
            (-(rhs.bits as i128)) as u128
        } else {
            rhs.bits as u128
        };
        let q: u128 = (ma * 65536) / mb;
        proof {
            assert(ma * 65536 == iabs(self@ * SCALE));
            assert(mb == iabs(rhs@));
            lemma_div_pos_is_pos((ma * 65536) as int, mb as int);
            assert(q == iabs(self@ * SCALE) / iabs(rhs@));
        }
        let neg: bool = na != nb;
        let bits: i64 = if neg {
            -(q as i64)
        } else {
            q as i64
        };
        proof {
            if neg {
                assert(fx_div_spec(self@, rhs@) == -(q as int) || q == 0);
            } else {
                assert(fx_div_spec(self@, rhs@) == q as int);
            }
        }
        Fx { bits }
    }

    /// Fixed-point square root, rounded down.
    pub fn sqrt(self) -> (r: Fx)
        requires
            self@ >= 0,
        ensures
            fx_sqrt_spec(self@, r@),
            r@ == isqrt_spec(self@ * SCALE),
            0 <= r@ < 0x80000000000,
    {
        let n: u128 = (self.bits as u128) * 65536;
        let root: u64 = isqrt(n);
        proof {
            lemma_isqrt_spec_brackets(self@ * SCALE);
            lemma_sqrt_unique(self@ * SCALE, root as int, isqrt_spec(self@ * SCALE));
            assert(root as int * (root as int) <= self@ * SCALE);
            if root >= 0x80000000000 {
                assert(root as int * (root as int) >= 0x80000000000 * 0x80000000000int)
                    by (nonlinear_arith)
                    requires
                        root >= 0x80000000000,
                ;
                assert(self@ * SCALE < 0x80000000000 * 0x80000000000int);
            }
        }
        Fx { bits: root as i64 }
    }

    /// Divide the raw value by a positive integer count (used to average
    /// accumulated samples), rounding toward zero.
    pub fn div_int(self, n: i64) -> (r: Fx)
        requires
            1 <= n,
            self@ != i64::MIN,
        ensures
            r@ == tdiv(self@, n as int),
    {
        let neg: bool = self.bits < 0;
        let m: u64 = if neg {
            (-self.bits) as u64
        } else {
            self.bits as u64
        };
        let q: u64 = m / (n as u64);
        proof {
            lemma_div_pos_is_pos(m as int, n as int);
            lemma_div_is_ordered(m as int, i64::MAX as int, n as int);
            lemma_div_is_ordered_by_denominator(i64::MAX as int, 1, n as int);
        }
        let bits: i64 = if neg {
            -(q as i64)
        } else {
            q as i64
        };
        Fx { bits }
    }

    /// The smaller of two scalars.
    pub fn min(self, rhs: Fx) -> (r: Fx)
        ensures
            r@ == if self@ <= rhs@ {
                self@
            } else {
                rhs@
            },
    {
        if self.bits <= rhs.bits {
            self
        } else {
            rhs
        }
    }

    /// Magnitude of the scalar.
    pub fn abs(self) -> (r: Fx)
        requires
            self@ != i64::MIN,
        ensures
            r@ == iabs(self@),
    {
        if self.bits < 0 {
            Fx { bits: -self.bits }
        } else {
            self
        }
    }
}

/// The integer square root, rounded down: the largest `r` with `r * r <= n`.
fn isqrt(n: u128) -> (r: u64)
    requires
        n < 0x40000000000000000000000000000000u128,
    ensures
        r * r <= n < (r + 1) * (r + 1),
{
    let mut lo: u128 = 0;
    let mut hi: u128 = 0x8000000000000000;
    proof {
        assert(hi * hi == 0x40000000000000000000000000000000u128) by (nonlinear_arith)
            requires
                hi == 0x8000000000000000u128,
        ;
    }
    while lo + 1 < hi
        invariant
            lo < hi <= 0x8000000000000000,
            lo * lo <= n,
            n < hi * hi,
        decreases hi - lo,
    {
        let mid: u128 = lo + (hi - lo) / 2;
        proof {
            assert((mid as int) * (mid as int) < 0x100000000000000000000000000000000int)
                by (nonlinear_arith)
                requires
                    mid < 0x10000000000000000u128,
            ;
        }
        if mid * mid <= n {
            lo = mid;
        } else {
            hi = mid;
        }
    }
    proof {
        assert(lo < 0x10000000000000000u128) by (nonlinear_arith)
            requires
                lo * lo <= n,
                n < 0x40000000000000000000000000000000u128,
                lo < 0x8000000000000001u128,
        ;
    }
    lo as u64
}

/// Bound on a product from bounds on its factors.
pub proof fn lemma_mul_bound(a: int, b: int, ba: int, bb: int)
    by (nonlinear_arith)
    requires
        -ba <= a <= ba,
        -bb <= b <= bb,
        0 <= ba,
        0 <= bb,
    ensures
        -(ba * bb) <= a * b <= ba * bb,
{
}

/// Bound on a truncating quotient from a bound on the dividend.
pub proof fn lemma_tdiv_bound(a: int, d: int, m: int)
    requires
        0 < d,
        -m <= a <= m,
    ensures
        -(m / d) <= tdiv(a, d) <= m / d,
{
    lemma_div_pos_is_pos(iabs(a), d);
    lemma_div_is_ordered(iabs(a), m, d);
}

/// Bound on a rescaled product from bounds on its factors.
pub proof fn lemma_fx_mul_bound(a: int, b: int, ba: int, bb: int)
    requires
        -ba <= a <= ba,
        -bb <= b <= bb,
        0 <= ba,
        0 <= bb,
    ensures
        -(ba * bb / (SCALE as int)) <= fx_mul_spec(a, b) <= ba * bb / (SCALE as int),
{
    lemma_mul_bound(a, b, ba, bb);
    lemma_tdiv_bound(a * b, SCALE as int, ba * bb);
}

/// Bound on a rescaled quotient from a bound on the dividend and a floor
/// on the divisor's magnitude.
pub proof fn lemma_fx_div_bound(a: int, b: int, ba: int, mb: int)
    requires
        -ba <= a <= ba,
        0 <= ba,
        1 <= mb <= iabs(b),
    ensures
        -(ba * SCALE / mb) <= fx_div_spec(a, b) <= ba * SCALE / mb,
{
    lemma_div_pos_is_pos(iabs(a * SCALE), iabs(b));
    lemma_div_is_ordered_by_denominator(iabs(a * SCALE), mb, iabs(b));
    lemma_div_is_ordered(iabs(a * SCALE), ba * SCALE, mb);
}

/// Truncating division is monotone in the dividend.
pub proof fn lemma_tdiv_monotone(x: int, y: int, d: int)
    requires
        x <= y,
        1 <= d,
    ensures
        tdiv(x, d) <= tdiv(y, d),
{
    if x >= 0 {
        lemma_div_is_ordered(x, y, d);
    } else if y < 0 {
        lemma_div_is_ordered(-y, -x, d);
    } else {
        lemma_div_pos_is_pos(y, d);
        lemma_div_pos_is_pos(-x, d);
    }
}

/// The rescaled quotient is monotone in the dividend.
pub proof fn lemma_fx_div_monotone(x: int, y: int, d: int)
    requires
        x <= y,
        1 <= d,
    ensures
        fx_div_spec(x, d) <= fx_div_spec(y, d),
{
    lemma_tdiv_monotone(x * SCALE, y * SCALE, d);
}

/// Negating one factor negates the rescaled product.
pub proof fn lemma_fx_mul_neg(a: int, b: int)
    ensures
        fx_mul_spec(-a, b) == -fx_mul_spec(a, b),
{
    assert((-a) * b == -(a * b)) by (nonlinear_arith);
}

/// Squares (rescaled) are monotone in the magnitude.
pub proof fn lemma_fx_sq_monotone(a: int, b: int)
    requires
        0 <= a <= b,
    ensures
        fx_mul_spec(a, a) <= fx_mul_spec(b, b),
{
    assert(a * a <= b * b) by (nonlinear_arith)
        requires
            0 <= a <= b,
    ;
    lemma_tdiv_monotone(a * a, b * b, SCALE as int);
    assert(a * a >= 0) by (nonlinear_arith);
}

/// A dividend of at most `k` times the divisor gives a quotient of at most
/// `k` units.
pub proof fn lemma_fx_div_le_multiple(x: int, d: int, k: int)
    requires
        d != 0,
        0 <= k,
        iabs(x) <= k * iabs(d),
    ensures
        -(k * SCALE) <= fx_div_spec(x, d) <= k * SCALE,
{
    let xa = iabs(x);
    let da = iabs(d);
    assert(iabs(x * SCALE) == xa * 65536);
    assert(xa * 65536 <= da * (k * 65536)) by (nonlinear_arith)
        requires
            xa <= k * da,
            0 <= xa,
            0 <= k,
            0 <= da,
    ;
    lemma_div_pos_is_pos(xa * 65536, da);
    lemma_div_is_ordered(xa * 65536, da * (k * 65536), da);
    lemma_div_multiples_vanish_wrap(k * 65536, da);
}

/// A dividend of at least half the divisor gives a quotient of at least
/// half a unit (in magnitude).
pub proof fn lemma_fx_div_half_lower(x: int, d: int)
    requires
        d != 0,
        2 * iabs(x) >= iabs(d),
    ensures
        iabs(fx_div_spec(x, d)) >= 32768,
{
    let xa = iabs(x);
    let da = iabs(d);
    assert(iabs(x * SCALE) == xa * 65536);
    assert(xa * 65536 >= da * 32768) by (nonlinear_arith)
        requires
            2 * xa >= da,
            0 <= xa,
            0 <= da,
    ;
    lemma_div_is_ordered(da * 32768, xa * 65536, da);
    lemma_div_multiples_vanish_wrap(32768, da);
}

proof fn lemma_div_multiples_vanish_wrap(x: int, d: int)
    requires
        0 < d,
    ensures
        (d * x) / d == x,
{
    vstd::arithmetic::div_mod::lemma_div_multiples_vanish(x, d);
}

/// A product of non-negatives, rescaled, is non-negative.
pub proof fn lemma_fx_mul_nonneg(a: int, b: int)
    requires
        0 <= a,
        0 <= b,
    ensures
        0 <= fx_mul_spec(a, b),
{
    assert(0 <= a * b) by (nonlinear_arith)
        requires
            0 <= a,
            0 <= b,
    ;
    lemma_div_pos_is_pos(a * b, SCALE as int);
}

/// A quotient of non-negatives, rescaled, is non-negative.
pub proof fn lemma_fx_div_nonneg(a: int, b: int)
    requires
        0 <= a,
        0 < b,
    ensures
        0 <= fx_div_spec(a, b),
{
    lemma_div_pos_is_pos(iabs(a * SCALE), iabs(b));
}

/// Multiplying by one full unit is exact: rescaling `x * SCALE` gives
/// back `x`.
pub proof fn lemma_div_exact_multiple(x: int)
    ensures
        fx_mul_spec(x, SCALE as int) == x,
        fx_mul_spec(SCALE as int, x) == x,
{
    assert(x * 65536 == 65536 * x) by (nonlinear_arith);
    lemma_div_multiples_vanish_wrap(iabs(x), 65536);
    assert(iabs(x * 65536) == 65536 * iabs(x)) by (nonlinear_arith)
        requires
            iabs(x) == x || iabs(x) == -x,
    ;
}

/// Order on square roots follows order on squares.
pub proof fn lemma_sq_le(r: int, s: int)
    by (nonlinear_arith)
    requires
        0 <= r,
        0 <= s,
        r * r <= s * s,
    ensures
        r <= s,
{
}

} // verus!
