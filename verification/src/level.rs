//! A probability, threshold or gain, kept as the bit pattern of a binary32 number.
//!
//! The order of such numbers is the order of their bit patterns read as sign and magnitude, so
//! comparisons need no arithmetic. A pattern that is not a number compares false with every
//! number, itself included.

use vstd::prelude::*;
use vstd::arithmetic::div_mod::{lemma_div_denominator, lemma_fundamental_div_mod, lemma_mod_bound};
use vstd::arithmetic::power2::{lemma2_to64, lemma2_to64_rest, lemma_pow2_pos, lemma_pow2_strictly_increases, lemma_pow2_unfold, pow2};

verus! {

/// Bits of positive infinity; a greater magnitude is not a number.
pub const INFINITY_BITS: u32 = 0x7f80_0000;

/// Sign bit of a binary32 pattern.
pub const SIGN_BIT: u32 = 0x8000_0000;

/// Bits of 0.0.
pub const ZERO_BITS: u32 = 0;

/// Bits of 1.0.
pub const ONE_BITS: u32 = 0x3f80_0000;

/// Bits of 0.01.
pub const ONE_HUNDREDTH_BITS: u32 = 0x3c23_d70a;

/// A binary32 number as its bit pattern.
#[derive(Clone, Copy, Debug, PartialEq, Eq, Structural)]
pub struct Level {
    /// The bit pattern.
    pub bits: u32,
}

impl Level {
    /// The pattern without its sign.
    pub open spec fn magnitude(self) -> int {
        if self.bits >= SIGN_BIT {
            self.bits - SIGN_BIT
        } else {
            self.bits as int
        }
    }

    /// Whether the pattern is not a number.
    pub open spec fn nan(self) -> bool {
        self.magnitude() > INFINITY_BITS
    }

    /// Rank of a number among all numbers: both zeros have rank 0.
    pub open spec fn rank(self) -> int {
        if self.bits >= SIGN_BIT {
            -self.magnitude()
        } else {
            self.magnitude()
        }
    }

    /// `self >= other` of the numbers.
    pub open spec fn ge(self, other: Level) -> bool {
        !self.nan() && !other.nan() && self.rank() >= other.rank()
    }

    /// `self < other` of the numbers.
    pub open spec fn lt(self, other: Level) -> bool {
        !self.nan() && !other.nan() && self.rank() < other.rank()
    }

    /// Whether the number lies in `[0.0, 1.0]`.
    pub open spec fn unit(self) -> bool {
        !self.nan() && 0 <= self.rank() <= ONE_BITS
    }

    /// Whether the pattern is a number other than an infinity.
    pub open spec fn finite(self) -> bool {
        self.magnitude() < INFINITY_BITS
    }

    /// Builds a level from a bit pattern.
    pub fn from_bits(bits: u32) -> (res: Level)
        ensures
            res.bits == bits,
    {
        Level { bits }
    }

    /// The pattern without its sign.
    fn magnitude_bits(self) -> (res: u32)
        ensures
            res == self.magnitude(),
    {
        if self.bits >= SIGN_BIT {
            self.bits - SIGN_BIT
        } else {
            self.bits
        }
    }

    /// Whether the pattern is not a number.
    pub fn is_nan(self) -> (res: bool)
        ensures
            res == self.nan(),
    {
        self.magnitude_bits() > INFINITY_BITS
    }

    /// Whether the pattern is a number other than an infinity.
    pub fn is_finite(self) -> (res: bool)
        ensures
            res == self.finite(),
    {
        self.magnitude_bits() < INFINITY_BITS
    }

    /// `self >= other`, false where either is not a number.
    pub fn at_least(self, other: Level) -> (res: bool)
        ensures
            res == self.ge(other),
    {
        if self.is_nan() || other.is_nan() {
            return false;
        }
        let left: i64 = self.signed();
        let right: i64 = other.signed();
        left >= right
    }

    /// `self < other`, false where either is not a number.
    pub fn below(self, other: Level) -> (res: bool)
        ensures
            res == self.lt(other),
    {
        if self.is_nan() || other.is_nan() {
            return false;
        }
        let left: i64 = self.signed();
        let right: i64 = other.signed();
        left < right
    }

    /// Whether the number lies in `[0.0, 1.0]`.
    pub fn in_unit(self) -> (res: bool)
        ensures
            res == self.unit(),
    {
        if self.is_nan() {
            return false;
        }
        let rank: i64 = self.signed();
        0 <= rank && rank <= ONE_BITS as i64
    }

    /// The rank as a machine integer.
    fn signed(self) -> (res: i64)
        ensures
            res == self.rank(),
    {
        let m: i64 = self.magnitude_bits() as i64;
        if self.bits >= SIGN_BIT {
            -m
        } else {
            m
        }
    }
}

/// Comparison is total on numbers: one of `a < b` and `a >= b` holds, and never both.
pub proof fn lemma_order_is_total(a: Level, b: Level)
    ensures
        !a.nan() && !b.nan() ==> (a.lt(b) <==> !a.ge(b)),
        a.nan() || b.nan() ==> !a.lt(b) && !a.ge(b),
{
}

/// Both zeros are equal in the order.
pub proof fn lemma_zeros_are_equal(a: Level, b: Level)
    requires
        a.magnitude() == 0,
        b.magnitude() == 0,
    ensures
        a.ge(b) && b.ge(a),
{
}

// ---------------------------------------------------------------------------
// Subtracting 0.15
// ---------------------------------------------------------------------------

/// Bits of 0.125, the least number of its binade: from here on every number is a whole count of
/// units of 2^-26.
pub const EIGHTH_BITS: u32 = 0x3e00_0000;

/// Bits of 2^24: from here on 0.15 is under half the distance to the next number.
pub const LARGE_BITS: u32 = 0x4b80_0000;

/// 0.15 in units of 2^-26.
pub const FIFTEEN_HUNDREDTHS: u64 = 10_066_330;

/// The least whole count of units of 2^-26 above 0.01.
pub const ABOVE_ONE_HUNDREDTH: u64 = 671_089;

/// The number in units of 2^-26, for patterns from [`EIGHTH_BITS`] on and below [`LARGE_BITS`].
pub open spec fn units(bits: u32) -> nat {
    let exponent = (bits / 0x80_0000) as int;
    let fraction = (bits % 0x80_0000) as int;
    ((0x80_0000 + fraction) * pow2((exponent - 124) as nat)) as nat
}

/// `d / 2^s`, rounded to the nearest whole number, ties to the even one.
pub open spec fn round_half_even(d: nat, s: nat) -> nat {
    let q = d / pow2(s);
    let r = d % pow2(s);
    if 2 * r > pow2(s) || (2 * r == pow2(s) && q % 2 == 1) {
        q + 1
    } else {
        q
    }
}

/// How many trailing bits of `d` go beyond its 24 leading ones.
pub open spec fn excess_bits(d: nat) -> nat
    decreases d,
{
    if d < 0x100_0000 {
        0
    } else {
        1 + excess_bits(d / 2)
    }
}

/// The pattern of the number nearest to `d` units of 2^-26, ties to the even significand.
///
/// Counted in units of 2^-49 every positive count fills the 24 bits of a significand, so the
/// number keeps its 24 leading bits, rounded. A significand rounded up to 2^24 carries into the
/// exponent by the sum alone.
pub open spec fn nearest(d: nat) -> int {
    let fine = d * 0x80_0000;
    let s = excess_bits(fine);
    (101 + s) * 0x80_0000 + (round_half_even(fine, s) - 0x80_0000)
}

/// The bits of `max(t - 0.15, 0.01)`, as binary32 subtraction and `max` give it.
///
/// What is not a number, is negative or lies under 0.125 gives 0.01, and from 2^24 on the
/// subtraction rounds back to `t`.
pub open spec fn lowered_bits(t: u32) -> int {
    if t < EIGHTH_BITS || t > INFINITY_BITS {
        ONE_HUNDREDTH_BITS as int
    } else if t >= LARGE_BITS {
        t as int
    } else if units(t) < FIFTEEN_HUNDREDTHS + ABOVE_ONE_HUNDREDTH {
        ONE_HUNDREDTH_BITS as int
    } else {
        nearest((units(t) - FIFTEEN_HUNDREDTHS) as nat)
    }
}

proof fn lemma_halving(q: nat, d: nat, s: nat)
    requires
        q == d / pow2(s),
    ensures
        q / 2 == d / pow2(s + 1),
{
    lemma_pow2_pos(s);
    lemma_pow2_unfold(s + 1);
    lemma_div_denominator(d as int, pow2(s) as int, 2);
    assert(pow2(s) * 2 == pow2(s + 1));
}

/// Rounds `d` units of 2^-26 to the nearest binary32 pattern.
fn nearest_bits(d: u64) -> (res: u32)
    requires
        0 < d < 0x4_0000_0000_0000,
    ensures
        res == nearest(d as nat),
{
    let fine: u128 = d as u128 * 0x80_0000;
    let mut q: u128 = fine;
    let mut s: u32 = 0;
    let mut unit: u128 = 1;
    proof {
        lemma2_to64();
        assert(fine as nat / pow2(0) == fine as nat) by (nonlinear_arith)
            requires
                pow2(0) == 1,
        ;
    }
    while q >= 0x100_0000
        invariant
            0 < d < 0x4_0000_0000_0000,
            fine == d * 0x80_0000,
            q as nat == fine as nat / pow2(s as nat),
            q >= 0x80_0000,
            s <= 50,
            q * unit <= fine,
            fine < 0x4_0000_0000_0000 * 0x80_0000,
            unit == pow2(s as nat),
            s + excess_bits(q as nat) == excess_bits(fine as nat),
        decreases q,
    {
        proof {
            lemma_halving(q as nat, fine as nat, s as nat);
            lemma_pow2_unfold((s + 1) as nat);
            if s == 50 {
                lemma2_to64_rest();
                assert(q * unit >= 0x100_0000 * 0x4_0000_0000_0000) by (nonlinear_arith)
                    requires
                        q >= 0x100_0000,
                        unit == 0x4_0000_0000_0000,
                ;
            }
            assert(unit <= fine) by (nonlinear_arith)
                requires
                    q * unit <= fine,
                    q >= 1,
                    unit >= 0,
            ;
            assert((q / 2) * (unit * 2) <= q * unit) by (nonlinear_arith)
                requires
                    q >= 0,
                    unit >= 0,
            ;
        }
        q = q / 2;
        unit = unit * 2;
        s = s + 1;
    }
    proof {
        lemma_pow2_pos(s as nat);
        lemma_fundamental_div_mod(fine as int, unit as int);
        lemma_mod_bound(fine as int, unit as int);
    }
    assert(unit * q == q * unit) by (nonlinear_arith);
    let r: u128 = fine - q * unit;
    let mut m: u32 = q as u32;
    if 2 * r > unit || (2 * r == unit && q % 2 == 1) {
        m = m + 1;
    }
    (101 + s) * 0x80_0000 + (m - 0x80_0000)
}

impl Level {
    /// `max(self - 0.15, 0.01)`.
    pub fn lowered(self) -> (res: Level)
        ensures
            res.bits == lowered_bits(self.bits),
    {
        let t: u32 = self.bits;
        if t < EIGHTH_BITS || t > INFINITY_BITS {
            return Level { bits: ONE_HUNDREDTH_BITS };
        }
        if t >= LARGE_BITS {
            return self;
        }
        let exponent: u32 = t / 0x80_0000;
        let fraction: u32 = t % 0x80_0000;
        let mut n: u64 = 0x80_0000 + fraction as u64;
        let mut k: u32 = 124;
        proof {
            lemma2_to64();
            assert((0x80_0000 + fraction) * pow2(0) == 0x80_0000 + fraction) by (nonlinear_arith)
                requires
                    pow2(0) == 1,
            ;
        }
        while k < exponent
            invariant
                124 <= k <= exponent <= 150,
                fraction < 0x80_0000,
                n == (0x80_0000 + fraction) * pow2((k - 124) as nat),
                n < 0x100_0000 * pow2((k - 124) as nat),
                n >= 0x80_0000,
            decreases exponent - k,
        {
            proof {
                let e = (k - 124) as nat;
                lemma_pow2_unfold(e + 1);
                lemma_pow2_strictly_increases(e, 26);
                lemma2_to64();
                assert((0x80_0000 + fraction) * (2 * pow2(e)) == 2 * ((0x80_0000 + fraction)
                    * pow2(e))) by (nonlinear_arith);
            }
            n = n * 2;
            k = k + 1;
        }
        assert(n == units(t));
        if n < FIFTEEN_HUNDREDTHS + ABOVE_ONE_HUNDREDTH {
            return Level { bits: ONE_HUNDREDTH_BITS };
        }
        proof {
            if k < 150 {
                lemma_pow2_strictly_increases((k - 124) as nat, 26);
            }
            lemma2_to64();
        }
        let bits: u32 = nearest_bits(n - FIFTEEN_HUNDREDTHS);
        Level { bits }
    }
}

// ---------------------------------------------------------------------------
// Laws of patterns
// ---------------------------------------------------------------------------

/// The order of patterns: positive numbers and infinity are in the order of their patterns,
/// negative ones in the opposite order and below all positive ones, and both zeros are equal.
/// What is beyond infinity is no number and is in no order with anything.
pub proof fn lemma_order_of_patterns(a: Level, b: Level)
    ensures
        a.nan() <==> 0x7f80_0000 < a.bits < 0x8000_0000 || a.bits > 0xff80_0000,
        a.nan() || b.nan() ==> !a.ge(b) && !a.lt(b),
        a.bits <= 0x7f80_0000 && b.bits <= 0x7f80_0000 ==> (a.ge(b) <==> a.bits >= b.bits),
        a.bits <= 0x7f80_0000 && b.bits <= 0x7f80_0000 ==> (a.lt(b) <==> a.bits < b.bits),
        0x8000_0000 <= a.bits <= 0xff80_0000 && 0x8000_0000 <= b.bits <= 0xff80_0000 ==> (a.ge(b)
            <==> a.bits <= b.bits),
        0x8000_0000 <= a.bits <= 0xff80_0000 && 0x8000_0000 <= b.bits <= 0xff80_0000 ==> (a.lt(b)
            <==> a.bits > b.bits),
        a.bits <= 0x7f80_0000 && 0x8000_0000 <= b.bits <= 0xff80_0000 ==> a.ge(b),
        0x8000_0000 < a.bits <= 0xff80_0000 && b.bits <= 0x7f80_0000 ==> a.lt(b) && !a.ge(b),
        a.bits == 0x8000_0000 && b.bits <= 0x7f80_0000 ==> (a.lt(b) <==> b.bits > 0) && (a.ge(b)
            <==> b.bits == 0),
        a.unit() <==> a.bits <= 0x3f80_0000 || a.bits == 0x8000_0000,
        a.finite() <==> a.bits < 0x7f80_0000 || 0x8000_0000 <= a.bits < 0xff80_0000,
{
}

proof fn lemma_excess(d: nat)
    requires
        d >= 0x80_0000,
    ensures
        0x80_0000 <= d / pow2(excess_bits(d)) < 0x100_0000,
    decreases d,
{
    lemma2_to64();
    if d >= 0x100_0000 {
        let s = excess_bits(d / 2);
        lemma_excess(d / 2);
        lemma_pow2_pos(s);
        lemma_pow2_unfold(s + 1);
        lemma_div_denominator(d as int, 2, pow2(s) as int);
        assert(2 * pow2(s) == pow2(s + 1));
    } else {
        assert(d / pow2(0) == d) by (nonlinear_arith)
            requires
                pow2(0) == 1,
        ;
    }
}

/// The pattern of the number nearest to `d` units of 2^-26 has an exponent and a significand `m`
/// of 24 bits such that `m` is `d`, counted in units of that exponent, rounded: it is off by half
/// a unit at most, and even where it is off by that. Here `s` is how far the exponent lies above
/// the least one.
pub proof fn lemma_nearest_is_nearest(d: nat) -> (at: (nat, nat))
    requires
        d > 0,
    ensures
        ({
            let (s, m) = at;
            &&& nearest(d) == (100 + s) * 0x80_0000 + m
            &&& 0x80_0000 <= m <= 0x100_0000
            &&& 2 * (m * pow2(s)) <= 2 * (d * 0x80_0000) + pow2(s)
            &&& 2 * (d * 0x80_0000) <= 2 * (m * pow2(s)) + pow2(s)
            &&& 2 * (m * pow2(s)) == 2 * (d * 0x80_0000) + pow2(s) || 2 * (d * 0x80_0000) == 2 * (m
                * pow2(s)) + pow2(s) ==> m % 2 == 0
        }),
{
    let fine = d * 0x80_0000;
    let s = excess_bits(fine);
    lemma_excess(fine);
    lemma_pow2_pos(s);
    let p = pow2(s);
    let q = fine / p;
    let r = fine % p;
    lemma_fundamental_div_mod(fine as int, p as int);
    lemma_mod_bound(fine as int, p as int);
    let m = round_half_even(fine, s);
    assert(q * p == p * q) by (nonlinear_arith);
    assert((q + 1) * p == q * p + p) by (nonlinear_arith);
    (s, m)
}

/// The count of units of a pattern: 0.125 is 2^23 units, the next binade has twice as many, and
/// within a binade patterns are in equal steps.
pub proof fn lemma_units(t: u32)
    requires
        EIGHTH_BITS <= t,
        t <= 0x7f00_0000,
    ensures
        units(0x3e00_0000) == 0x80_0000,
        units((t + 0x80_0000) as u32) == 2 * units(t),
        t % 0x80_0000 < 0x7f_ffff ==> units((t + 1) as u32) - units(t) == pow2(
            (t / 0x80_0000 - 124) as nat,
        ),
{
    lemma2_to64();
    let e = (t / 0x80_0000 - 124) as nat;
    let f = (t % 0x80_0000) as nat;
    assert(0x80_0000 * pow2(0) == 0x80_0000) by (nonlinear_arith)
        requires
            pow2(0) == 1,
    ;
    let up = (t + 0x80_0000) as u32;
    assert(up / 0x80_0000 == t / 0x80_0000 + 1 && up % 0x80_0000 == t % 0x80_0000);
    lemma_pow2_unfold(e + 1);
    assert((0x80_0000 + f) * (2 * pow2(e)) == 2 * ((0x80_0000 + f) * pow2(e))) by (nonlinear_arith);
    if f < 0x7f_ffff {
        let next = (t + 1) as u32;
        assert(next / 0x80_0000 == t / 0x80_0000 && next % 0x80_0000 == f + 1);
        assert((0x80_0000 + (f + 1)) * pow2(e) == (0x80_0000 + f) * pow2(e) + pow2(e))
            by (nonlinear_arith);
    }
}

/// What becomes of a threshold of speech for silence. It is 0.01 where the threshold is under
/// 0.125, negative or no number, or where the difference is no more than that; it is the
/// threshold itself from 2^24 on; and else it is the number nearest to the threshold less 0.15.
pub proof fn lemma_lowered(t: u32)
    ensures
        t < 0x3e00_0000 || t > 0x7f80_0000 ==> lowered_bits(t) == 0x3c23_d70a,
        0x4b80_0000 <= t <= 0x7f80_0000 ==> lowered_bits(t) == t,
        0x3e00_0000 <= t < 0x4b80_0000 && units(t) < 10_737_419 ==> lowered_bits(t) == 0x3c23_d70a,
        0x3e00_0000 <= t < 0x4b80_0000 && units(t) >= 10_737_419 ==> lowered_bits(t) == nearest(
            (units(t) - 10_066_330) as nat,
        ),
{
}

} // verus!
