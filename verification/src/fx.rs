//! Fixed-point numbers: 16 fractional bits stored in an `i64`.
//!
//! A value `x` is stored as `x.raw`, counting units of `1/65536`. All
//! contracts in the crate speak of the raw integer directly, so every
//! arithmetic result is pinned exactly.

use vstd::prelude::*;

verus! {

/// Raw units per whole number: the fixed-point scale.
pub const SCALE: i64 = 65536;

/// Absolute value of a mathematical integer.
pub open spec fn iabs(i: int) -> int {
    if i < 0 {
        -i
    } else {
        i
    }
}

/// A fixed-point number with 16 fractional bits.
#[derive(Clone, Copy, PartialEq, Eq, Structural, Debug)]
pub struct Fx {
    pub raw: i64,
}

/// Floor division by a positive divisor, on 128-bit intermediates.
///
/// Spec-level `/` is Euclidean division, which for a positive divisor is
/// exactly floor division.
pub(crate) fn div_floor_128(a: i128, b: i128) -> (r: i128)
    requires
        b > 0,
        a > i128::MIN,
    ensures
        r == a as int / b as int,
{
    if a >= 0 {
        let q: u128 = (a as u128) / (b as u128);
        q as i128
    } else {
        let na: u128 = (-a) as u128;
        let nb: u128 = b as u128;
        let q: u128 = (na + (nb - 1)) / nb;
        proof {
            assert(q == (na + (nb - 1)) as int / nb as int);
            assert(-(((na + (nb - 1)) as int) / (nb as int)) == (-(na as int)) / (nb as int))
                by (nonlinear_arith)
                requires
                    na > 0,
                    nb > 0,
            ;
            assert(q <= na) by (nonlinear_arith)
                requires
                    na > 0,
                    nb > 0,
                    q == (na + (nb - 1)) as int / nb as int,
            ;
        }
        -(q as i128)
    }
}

impl Fx {
    /// Wraps a raw count of 1/65536 units.
    pub fn from_raw(raw: i64) -> (r: Fx)
        ensures
            r.raw == raw,
    {
        Fx { raw }
    }

    /// The whole number `i`.
    pub fn from_int(i: i32) -> (r: Fx)
        ensures
            r.raw == i * 65536,
    {
        Fx { raw: (i as i64) * 65536 }
    }

    pub fn add(self, o: Fx) -> (r: Fx)
        requires
            i64::MIN <= self.raw + o.raw <= i64::MAX,
        ensures
            r.raw == self.raw + o.raw,
    {
        Fx { raw: self.raw + o.raw }
    }

    pub fn sub(self, o: Fx) -> (r: Fx)
        requires
            i64::MIN <= self.raw - o.raw <= i64::MAX,
        ensures
            r.raw == self.raw - o.raw,
    {
        Fx { raw: self.raw - o.raw }
    }

    pub fn neg(self) -> (r: Fx)
        requires
            self.raw > i64::MIN,
        ensures
            r.raw == -self.raw,
    {
        Fx { raw: -self.raw }
    }

    pub fn abs(self) -> (r: Fx)
        requires
            self.raw > i64::MIN,
        ensures
            r.raw == if self.raw < 0 { -self.raw } else { self.raw as int },
    {
        if self.raw < 0 {
            Fx { raw: -self.raw }
        } else {
            self
        }
    }

    pub fn lt(self, o: Fx) -> (r: bool)
        ensures
            r == (self.raw < o.raw),
    {
        self.raw < o.raw
    }

    pub fn le(self, o: Fx) -> (r: bool)
        ensures
            r == (self.raw <= o.raw),
    {
        self.raw <= o.raw
    }

    pub fn min(self, o: Fx) -> (r: Fx)
        ensures
            r.raw == if self.raw <= o.raw { self.raw as int } else { o.raw as int },
    {
        if self.raw <= o.raw {
            self
        } else {
            o
        }
    }

    pub fn max(self, o: Fx) -> (r: Fx)
        ensures
            r.raw == if self.raw >= o.raw { self.raw as int } else { o.raw as int },
    {
        if self.raw >= o.raw {
            self
        } else {
            o
        }
    }

    /// Fixed-point product, rounded toward minus infinity.
    pub fn mul(self, o: Fx) -> (r: Fx)
        requires
            i64::MIN <= (self.raw * o.raw) / 65536int <= i64::MAX,
        ensures
            r.raw == (self.raw * o.raw) / 65536int,
    {
        let p: i128 = (self.raw as i128) * (o.raw as i128);
        proof {
            assert(p > i128::MIN) by (nonlinear_arith)
                requires
                    p == self.raw as int * o.raw as int,
                    i64::MIN <= self.raw <= i64::MAX,
                    i64::MIN <= o.raw <= i64::MAX,
            ;
        }
        let q: i128 = div_floor_128(p, 65536);
        Fx { raw: q as i64 }
    }

    /// Fixed-point quotient by a positive divisor, rounded toward minus
    /// infinity.
    pub fn div(self, o: Fx) -> (r: Fx)
        requires
            o.raw > 0,
            i64::MIN <= (self.raw * 65536) / (o.raw as int) <= i64::MAX,
        ensures
            r.raw == (self.raw * 65536) / (o.raw as int),
    {
        let n: i128 = (self.raw as i128) * 65536;
        let q: i128 = div_floor_128(n, o.raw as i128);
        Fx { raw: q as i64 }
    }

    /// The integer part, rounded toward minus infinity.
    pub fn floor_int(self) -> (r: i64)
        ensures
            r == self.raw as int / 65536int,
    {
        let q: i128 = div_floor_128(self.raw as i128, 65536);
        q as i64
    }

    /// The integer part, rounded toward zero.
    pub fn trunc_int(self) -> (r: i64)
        requires
            self.raw > i64::MIN,
        ensures
            r == if self.raw >= 0 {
                self.raw as int / 65536int
            } else {
                -((-self.raw) as int / 65536int)
            },
    {
        if self.raw >= 0 {
            ((self.raw as u64) / 65536) as i64
        } else {
            let m: i64 = (((-self.raw) as u64) / 65536) as i64;
            proof {
                lemma_div_shrinks((-self.raw) as int, 65536);
            }
            -m
        }
    }

    /// The fractional part: `self` minus its floor, in `[0, 1)`.
    pub fn fract(self) -> (r: Fx)
        ensures
            r.raw == self.raw as int % 65536int,
            0 <= r.raw < 65536,
    {
        let q: i64 = self.floor_int();
        proof {
            vstd::arithmetic::div_mod::lemma_fundamental_div_mod(self.raw as int, 65536);
        }
        Fx { raw: self.raw - q * 65536 }
    }
}

/// `|a * b| <= aa * bb` when `|a| <= aa` and `|b| <= bb`.
pub proof fn lemma_mul_abs_bound(a: int, b: int, aa: int, bb: int)
    by (nonlinear_arith)
    requires
        iabs(a) <= aa,
        iabs(b) <= bb,
    ensures
        iabs(a * b) <= aa * bb,
{
}

/// Floor division by a positive divisor keeps the magnitude bounded.
pub proof fn lemma_div_abs_bound(n: int, nn: int, d: int)
    by (nonlinear_arith)
    requires
        iabs(n) <= nn,
        d > 0,
    ensures
        iabs(n / d) <= nn,
{
}

/// Floor division by a positive divisor shrinks the magnitude bound, up to
/// the one unit that flooring a negative numerator can add.
pub proof fn lemma_div_abs_shrink(n: int, nn: int, d: int)
    by (nonlinear_arith)
    requires
        iabs(n) <= nn,
        d > 0,
    ensures
        iabs(n / d) <= nn / d + 1,
{
}

/// A fixed-point product of bounded factors fits in range.
pub proof fn lemma_mul_ok(a: i64, b: i64, aa: int, bb: int)
    requires
        iabs(a as int) <= aa,
        iabs(b as int) <= bb,
        0 <= aa,
        0 <= bb,
        aa * bb <= 0x4000_0000_0000_0000_0000,
    ensures
        iabs((a * b) / 65536int) <= aa * bb / 65536int + 1,
        i64::MIN <= (a * b) / 65536int <= i64::MAX,
{
    lemma_mul_abs_bound(a as int, b as int, aa, bb);
    lemma_div_abs_shrink(a as int * b as int, aa * bb, 65536int);
    vstd::arithmetic::div_mod::lemma_div_is_ordered(aa * bb, 0x4000_0000_0000_0000_0000int, 65536int);
}

/// Floor division of a nonnegative numerator by a positive divisor shrinks.
pub proof fn lemma_div_shrinks(n: int, d: int)
    by (nonlinear_arith)
    requires
        n >= 0,
        d >= 1,
    ensures
        0 <= n / d <= n,
{
}

} // verus!
