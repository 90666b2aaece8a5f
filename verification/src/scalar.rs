//! Binary64 numbers as the library carries them.
//!
//! A [`Scalar`] is the 64-bit encoding of an IEEE 754 binary64 number.
//! The library moves such values around, compares them and reads their
//! sign; arithmetic on them is left to the caller.
pub mod order;

use vstd::arithmetic::power2::lemma2_to64;
use vstd::arithmetic::power2::lemma2_to64_rest;
use vstd::arithmetic::power2::lemma_pow2_adds;
use vstd::arithmetic::power2::lemma_pow2_pos;
use vstd::arithmetic::power2::lemma_pow2_strictly_increases;
use vstd::arithmetic::power2::lemma_pow2_unfold;
use vstd::arithmetic::power2::pow2;
use vstd::prelude::*;

verus! {

/// The encoding of the sign bit.
pub const SIGN_BIT: u64 = 0x8000_0000_0000_0000;

/// The encoding of positive infinity; every larger magnitude is a NaN.
pub const INFINITY_BITS: u64 = 0x7FF0_0000_0000_0000;

/// The encoding of `1`.
pub const ONE_BITS: u64 = 0x3FF0_0000_0000_0000;

/// The encoding of `-1`.
pub const NEG_ONE_BITS: u64 = 0xBFF0_0000_0000_0000;

/// Two to the power 52: the weight of the exponent field in an
/// encoding, and the leading bit of a significand.
pub const FRACTION_RANGE: u64 = 0x10_0000_0000_0000;

/// The exponent field of `2^52`, the first power of two whose
/// neighbours among the numbers are whole numbers: a number with the
/// significand `s` and the exponent field `e` is `s * 2^(e - 1075)`.
pub const EXPONENT_OF_UNIT: u64 = 1075;

/// A binary64 number, held by its encoding.
#[derive(Clone, Copy, Debug)]
pub struct Scalar {
    pub bits: u64,
}

impl Scalar {
    /// The encoding without its sign bit.
    pub open spec fn magnitude(self) -> int {
        if self.bits >= SIGN_BIT {
            self.bits - SIGN_BIT
        } else {
            self.bits as int
        }
    }

    /// Whether the sign bit is set.
    pub open spec fn sign_bit(self) -> bool {
        self.bits >= SIGN_BIT
    }

    /// Whether the value is not a number.
    pub open spec fn nan(self) -> bool {
        self.magnitude() > INFINITY_BITS
    }

    /// An integer that orders the numbers as binary64 comparison does:
    /// for `a` and `b` that are numbers, `a < b` exactly when
    /// `a.key() < b.key()`, and both zeros have key `0`.
    pub open spec fn key(self) -> int {
        if self.sign_bit() {
            -self.magnitude()
        } else {
            self.magnitude()
        }
    }

    /// Whether the value is a number other than the two infinities.
    pub open spec fn finite(self) -> bool {
        self.magnitude() < INFINITY_BITS
    }

    /// The exponent field of the encoding; a number whose field is zero
    /// is scaled as one whose field is one.
    pub open spec fn exponent(self) -> nat {
        let field = self.magnitude() / (FRACTION_RANGE as int);
        if field == 0 {
            1
        } else {
            field as nat
        }
    }

    /// The significand: the fraction field, with the leading bit that
    /// the encoding leaves out where the exponent field is not zero.
    pub open spec fn significand(self) -> nat {
        let field = self.magnitude() / (FRACTION_RANGE as int);
        let fraction = self.magnitude() % (FRACTION_RANGE as int);
        if field == 0 {
            fraction as nat
        } else {
            (FRACTION_RANGE + fraction) as nat
        }
    }

    /// Whether the value is a number that is at most the whole number
    /// `m`. A finite number is `significand * 2^(exponent - 1075)`, with
    /// the sign of its sign bit; so one that is above zero is at most
    /// `m` exactly when `significand * 2^exponent <= m * 2^1075`.
    pub open spec fn within_count(self, m: nat) -> bool {
        if self.nan() {
            false
        } else if self.sign_bit() || self.magnitude() == 0 {
            true
        } else {
            self.finite() && self.significand() * pow2(self.exponent()) <= m * pow2(
                EXPONENT_OF_UNIT as nat,
            )
        }
    }

    /// Binary64 equality: both are numbers and they compare equal.
    pub open spec fn same(self, other: Scalar) -> bool {
        !self.nan() && !other.nan() && self.key() == other.key()
    }

    /// Binary64 `<`.
    pub open spec fn below(self, other: Scalar) -> bool {
        !self.nan() && !other.nan() && self.key() < other.key()
    }

    /// The integer that the sign of the value converts to: `0` for a
    /// NaN, `-1` where the sign bit is set, `1` otherwise.
    pub open spec fn sign(self) -> int {
        if self.nan() {
            0
        } else if self.sign_bit() {
            -1
        } else {
            1
        }
    }

    /// The encoding of the sign of the value as a number: that of `1`
    /// or `-1` by the sign bit, and the value's own for a NaN.
    pub open spec fn unit_bits(self) -> u64 {
        if self.nan() {
            self.bits
        } else if self.sign_bit() {
            NEG_ONE_BITS
        } else {
            ONE_BITS
        }
    }

    /// The value with the given encoding.
    pub fn from_bits(bits: u64) -> (r: Scalar)
        ensures
            r.bits == bits,
    {
        Scalar { bits }
    }

    /// The encoding of the value.
    pub fn to_bits(self) -> (r: u64)
        ensures
            r == self.bits,
    {
        self.bits
    }

    /// Positive zero.
    pub fn zero() -> (r: Scalar)
        ensures
            r.bits == 0,
    {
        Scalar { bits: 0 }
    }

    /// The number `1`.
    pub fn one() -> (r: Scalar)
        ensures
            r.bits == ONE_BITS,
    {
        Scalar { bits: ONE_BITS }
    }

    /// The number `-1`.
    pub fn neg_one() -> (r: Scalar)
        ensures
            r.bits == NEG_ONE_BITS,
    {
        Scalar { bits: NEG_ONE_BITS }
    }

    fn magnitude_bits(self) -> (r: u64)
        ensures
            r == self.magnitude(),
    {
        if self.bits >= SIGN_BIT {
            self.bits - SIGN_BIT
        } else {
            self.bits
        }
    }

    /// Whether the value is a NaN.
    pub fn is_nan(self) -> (r: bool)
        ensures
            r == self.nan(),
    {
        self.magnitude_bits() > INFINITY_BITS
    }

    /// Whether the value is a number other than the two infinities.
    pub fn is_finite(self) -> (r: bool)
        ensures
            r == self.finite(),
    {
        self.magnitude_bits() < INFINITY_BITS
    }

    /// Whether the value compares equal to zero, which both zeros do.
    pub fn is_zero(self) -> (r: bool)
        ensures
            r == self.same(Scalar { bits: 0 }),
            r == (self.magnitude() == 0),
    {
        self.magnitude_bits() == 0
    }

    /// Whether the value is a number greater than zero.
    pub fn is_positive(self) -> (r: bool)
        ensures
            r == (Scalar { bits: 0 }).below(self),
    {
        0 < self.bits && self.bits <= INFINITY_BITS
    }

    /// Binary64 `==`.
    pub fn equals(self, other: Scalar) -> (r: bool)
        ensures
            r == self.same(other),
    {
        if self.is_nan() || other.is_nan() {
            false
        } else if self.magnitude_bits() == 0 {
            other.magnitude_bits() == 0
        } else {
            self.bits == other.bits
        }
    }

    /// Binary64 `<`.
    pub fn less_than(self, other: Scalar) -> (r: bool)
        ensures
            r == self.below(other),
    {
        if self.is_nan() || other.is_nan() {
            false
        } else {
            let a: u64 = self.magnitude_bits();
            let b: u64 = other.magnitude_bits();
            if self.bits >= SIGN_BIT {
                if other.bits >= SIGN_BIT {
                    b < a
                } else {
                    a > 0 || b > 0
                }
            } else {
                if other.bits >= SIGN_BIT {
                    false
                } else {
                    a < b
                }
            }
        }
    }

    /// What the sign of the value converts to as an integer: `0` for a
    /// NaN, `-1` where the sign bit is set (negative zero included), `1`
    /// otherwise.
    pub fn signum(self) -> (r: i64)
        ensures
            r == self.sign(),
    {
        if self.is_nan() {
            0
        } else if self.bits >= SIGN_BIT {
            -1
        } else {
            1
        }
    }

    /// The value without its sign.
    pub fn abs(self) -> (r: Scalar)
        ensures
            r.bits == self.magnitude(),
    {
        Scalar { bits: self.magnitude_bits() }
    }

    /// The sign of the value as a number: `1` or `-1` by the sign bit,
    /// and a NaN for a NaN.
    pub fn unit(self) -> (r: Scalar)
        ensures
            r.bits == self.unit_bits(),
    {
        if self.is_nan() {
            self
        } else if self.bits >= SIGN_BIT {
            Scalar { bits: NEG_ONE_BITS }
        } else {
            Scalar { bits: ONE_BITS }
        }
    }

    /// Binary64 `<=`.
    pub fn at_most(self, other: Scalar) -> (r: bool)
        ensures
            r == (self.below(other) || self.same(other)),
    {
        self.less_than(other) || self.equals(other)
    }
}

/// Two to the power `k`.
fn power_of_two(k: u64) -> (r: u64)
    requires
        k <= 63,
    ensures
        r == pow2(k as nat),
{
    let mut r: u64 = 1;
    let mut i: u64 = 0;
    proof {
        lemma2_to64();
    }
    while i < k
        invariant
            i <= k <= 63,
            r == pow2(i as nat),
        decreases k - i,
    {
        proof {
            lemma2_to64_rest();
            if i < 62 {
                lemma_pow2_strictly_increases(i as nat, 62);
            }
            lemma_pow2_unfold((i + 1) as nat);
        }
        r = r * 2;
        i += 1;
    }
    r
}

impl Scalar {
    /// Whether the value is a number that is at most the whole number
    /// `m`.
    pub fn at_most_count(self, m: usize) -> (r: bool)
        ensures
            r == self.within_count(m as nat),
    {
        if self.is_nan() {
            return false;
        }
        if self.bits >= SIGN_BIT || self.bits == 0 {
            return true;
        }
        if self.bits >= INFINITY_BITS {
            return false;
        }
        let field: u64 = self.bits / FRACTION_RANGE;
        let fraction: u64 = self.bits % FRACTION_RANGE;
        let exponent: u64 = if field == 0 {
            1
        } else {
            field
        };
        let significand: u64 = if field == 0 {
            fraction
        } else {
            FRACTION_RANGE + fraction
        };
        assert(exponent == self.exponent());
        assert(significand == self.significand());
        assert(significand > 0);
        let count: u64 = m as u64;
        proof {
            lemma2_to64();
            lemma2_to64_rest();
            lemma_pow2_pos(exponent as nat);
            lemma_pow2_pos(EXPONENT_OF_UNIT as nat);
        }
        if exponent >= EXPONENT_OF_UNIT {
            let shift: u64 = exponent - EXPONENT_OF_UNIT;
            proof {
                lemma_pow2_adds(EXPONENT_OF_UNIT as nat, shift as nat);
                lemma_pow2_pos(shift as nat);
                lemma_scaled_order(
                    (significand * pow2(shift as nat)) as int,
                    m as int,
                    pow2(EXPONENT_OF_UNIT as nat) as int,
                );
                assert(significand * pow2(exponent as nat) == (significand * pow2(shift as nat))
                    * pow2(EXPONENT_OF_UNIT as nat)) by (nonlinear_arith)
                    requires
                        pow2(exponent as nat) == pow2(EXPONENT_OF_UNIT as nat) * pow2(shift as nat),
                ;
            }
            if shift >= 12 {
                proof {
                    if shift > 12 {
                        lemma_pow2_strictly_increases(12, shift as nat);
                    }
                    assert(significand * pow2(shift as nat) >= 0x1_0000_0000_0000_0000)
                        by (nonlinear_arith)
                        requires
                            significand >= 0x10_0000_0000_0000,
                            pow2(shift as nat) >= 0x1000,
                    ;
                }
                return false;
            }
            let scale: u64 = power_of_two(shift);
            proof {
                if shift < 11 {
                    lemma_pow2_strictly_increases(shift as nat, 11);
                }
                assert(significand * scale < 0x1_0000_0000_0000_0000) by (nonlinear_arith)
                    requires
                        significand < 0x20_0000_0000_0000,
                        scale <= 0x800,
                ;
            }
            significand * scale <= count
        } else {
            let shift: u64 = EXPONENT_OF_UNIT - exponent;
            proof {
                lemma_pow2_adds(exponent as nat, shift as nat);
                lemma_pow2_pos(shift as nat);
                lemma_scaled_order(
                    significand as int,
                    (m * pow2(shift as nat)) as int,
                    pow2(exponent as nat) as int,
                );
                assert(m * pow2(EXPONENT_OF_UNIT as nat) == (m * pow2(shift as nat)) * pow2(
                    exponent as nat,
                )) by (nonlinear_arith)
                    requires
                        pow2(EXPONENT_OF_UNIT as nat) == pow2(exponent as nat) * pow2(shift as nat),
                ;
            }
            if count == 0 {
                assert(significand * pow2(exponent as nat) > 0) by (nonlinear_arith)
                    requires
                        significand > 0,
                        pow2(exponent as nat) > 0,
                ;
                assert(m * pow2(EXPONENT_OF_UNIT as nat) == 0) by (nonlinear_arith)
                    requires
                        m == 0,
                ;
                return false;
            }
            if shift >= 53 {
                proof {
                    if shift > 53 {
                        lemma_pow2_strictly_increases(53, shift as nat);
                    }
                    assert(m * pow2(shift as nat) >= 0x20_0000_0000_0000) by (nonlinear_arith)
                        requires
                            m >= 1,
                            pow2(shift as nat) >= 0x20_0000_0000_0000,
                    ;
                }
                return true;
            }
            let scale: u64 = power_of_two(shift);
            proof {
                if shift < 52 {
                    lemma_pow2_strictly_increases(shift as nat, 52);
                }
                assert(count * scale < 0x10_0000_0000_0000_0000_0000_0000_0000) by (nonlinear_arith)
                    requires
                        count < 0x1_0000_0000_0000_0000,
                        scale <= 0x10_0000_0000_0000,
                ;
            }
            let scaled: u128 = (count as u128) * (scale as u128);
            (significand as u128) <= scaled
        }
    }
}

/// Scaling both sides by the same positive number keeps their order.
proof fn lemma_scaled_order(a: int, b: int, scale: int)
    by (nonlinear_arith)
    requires
        scale > 0,
    ensures
        (a * scale <= b * scale) == (a <= b),
{
}

/// The order of the numbers is strict: no number is below itself, and
/// what is below something that is below a third is below the third.
pub proof fn lemma_below_is_strict(a: Scalar, b: Scalar, c: Scalar)
    ensures
        !a.below(a),
        a.below(b) ==> !b.below(a),
        a.below(b) && b.below(c) ==> a.below(c),
{
}

/// Of two numbers exactly one of three holds: the first is below the
/// second, the two are the same, or the second is below the first. A
/// NaN is neither below nor above anything, and the same as nothing.
pub proof fn lemma_numbers_compare(a: Scalar, b: Scalar)
    ensures
        !a.nan() && !b.nan() ==> (a.below(b) || a.same(b) || b.below(a)),
        !(a.below(b) && a.same(b)),
        !(a.below(b) && b.below(a)),
        a.nan() || b.nan() ==> !a.below(b) && !a.same(b) && !b.below(a),
        a.same(b) == b.same(a),
{
}

/// The order by keys is the order by value: a number below one that is
/// at most a whole number is itself at most that whole number.
pub proof fn lemma_order_agrees_with_count(a: Scalar, b: Scalar, m: nat)
    requires
        a.below(b),
        b.within_count(m),
    ensures
        a.within_count(m),
{
    if !a.sign_bit() && a.magnitude() != 0 {
        let range = FRACTION_RANGE as int;
        let field_a = a.magnitude() / range;
        let field_b = b.magnitude() / range;
        let ea = a.exponent();
        let eb = b.exponent();
        let sa = a.significand();
        let sb = b.significand();
        assert(a.magnitude() < b.magnitude());
        assert(field_a <= field_b);
        lemma_pow2_pos(ea);
        lemma_pow2_pos(eb);
        if ea == eb {
            assert(sa <= sb);
            assert(sa * pow2(ea) <= sb * pow2(eb)) by (nonlinear_arith)
                requires
                    sa <= sb,
                    pow2(ea) == pow2(eb),
                    pow2(ea) > 0,
            ;
        } else {
            assert(ea < eb);
            assert(sb >= range);
            assert(sa < 2 * range);
            lemma_pow2_unfold(ea + 1);
            if ea + 1 < eb {
                lemma_pow2_strictly_increases(ea + 1, eb);
            }
            assert(sa * pow2(ea) <= sb * pow2(eb)) by (nonlinear_arith)
                requires
                    sa < 2 * range,
                    sb >= range,
                    range > 0,
                    pow2(ea) > 0,
                    2 * pow2(ea) <= pow2(eb),
            ;
        }
    }
}

/// The two zeros are the same number, though their encodings differ.
pub proof fn lemma_zeros_are_same()
    ensures
        (Scalar { bits: 0 }).same(Scalar { bits: SIGN_BIT }),
        (Scalar { bits: 0 }).bits != (Scalar { bits: SIGN_BIT }).bits,
{
}


} // verus!
