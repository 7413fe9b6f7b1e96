//! Numbers as bit patterns.
//!
//! The arithmetic of the tracer (sums, products, roots, tangents) is done in floating
//! point by the numeric kernels that an application supplies. This crate carries such
//! numbers, orders them, turns them into colour channels and makes a few of them
//! itself, and for that it holds a number as the 32 bits of its IEEE 754
//! single-precision encoding.
//!
//! Most significant first, the bits are one sign bit, eight exponent bits and
//! twenty-three fraction bits. With exponent field `e` and fraction field `f`, the
//! number denoted has the size `(2^23 + f) * 2^(e - 150)` for `e` from 1 to 254, and
//! `f * 2^-149` for `e = 0`; `e = 255` stands for infinity (`f = 0`) and NaN. Every
//! finite number is thus a whole multiple of `2^-149`, and the model of a number here is
//! that multiple, `scaled`: a plain integer, on which order and rounding mean what they
//! mean in arithmetic.
//!
//! Numbers are compared on their patterns, read as integers of sign and magnitude
//! (`rank`); `lemma_rank_is_order` shows that this is the order of the numbers.

use vstd::prelude::*;
use vstd::arithmetic::power2::pow2;
use vstd::arithmetic::power2::lemma2_to64;
use vstd::arithmetic::power2::lemma_pow2_strictly_increases;
use vstd::arithmetic::power2::lemma_pow2_pos;
use vstd::arithmetic::power2::lemma_pow2_adds;
use vstd::arithmetic::div_mod::lemma_fundamental_div_mod;
use vstd::arithmetic::div_mod::lemma_fundamental_div_mod_converse;
use vstd::arithmetic::div_mod::lemma_div_multiples_vanish;
use vstd::arithmetic::div_mod::lemma_div_multiples_vanish_quotient;
use vstd::arithmetic::div_mod::lemma_div_pos_is_pos;
use vstd::arithmetic::div_mod::lemma_div_is_ordered_by_denominator;
use vstd::arithmetic::div_mod::lemma_div_is_ordered;
use vstd::arithmetic::div_mod::lemma_basic_div;
use vstd::arithmetic::mul::lemma_mul_strict_inequality;
use vstd::bits::lemma_u32_shr_is_div;

verus! {

/// The sign bit.
pub const SIGN_BIT: u32 = 0x8000_0000;

/// Bits of positive infinity; every larger magnitude is a NaN.
pub const INFINITY_BITS: u32 = 0x7f80_0000;

/// Bits of the number one.
pub const ONE_BITS: u32 = 0x3f80_0000;

/// Number of distinct fraction fields, two to the twenty-third.
pub const FRACTION_SPAN: u32 = 0x0080_0000;

/// By how much the significand of a number from 1 up to 256 must be divided to give its
/// whole part: `2^(150 - exponent)` for the exponent fields 127 to 134.
pub open spec fn ones_in_significand(exponent: int) -> int {
    if exponent == 127 {
        0x0080_0000
    } else if exponent == 128 {
        0x0040_0000
    } else if exponent == 129 {
        0x0020_0000
    } else if exponent == 130 {
        0x0010_0000
    } else if exponent == 131 {
        0x0008_0000
    } else if exponent == 132 {
        0x0004_0000
    } else if exponent == 133 {
        0x0002_0000
    } else {
        0x0001_0000
    }
}

/// A single-precision number, held as its bits.
#[derive(Clone, Copy, Debug, PartialEq, Eq, Structural)]
pub struct Scalar {
    pub bits: u32,
}

impl Scalar {
    /// Whether the sign bit is set.
    pub open spec fn sign_set(self) -> bool {
        self.bits >= SIGN_BIT
    }

    /// The bits with the sign bit cleared.
    pub open spec fn magnitude(self) -> int {
        if self.bits >= SIGN_BIT {
            self.bits - SIGN_BIT
        } else {
            self.bits as int
        }
    }

    /// The exponent field, 0 to 255.
    pub open spec fn exponent(self) -> int {
        self.magnitude() / (FRACTION_SPAN as int)
    }

    /// The significand as an integer: the fraction field, with the implicit leading one
    /// for every exponent field but zero.
    pub open spec fn significand(self) -> int {
        let fraction = self.magnitude() % (FRACTION_SPAN as int);
        if self.exponent() == 0 {
            fraction
        } else {
            FRACTION_SPAN + fraction
        }
    }

    /// The exponent field, with 1 in place of 0: the size of the number is
    /// `significand * 2^(scale - 150)`.
    pub open spec fn scale(self) -> int {
        if self.exponent() == 0 {
            1
        } else {
            self.exponent()
        }
    }

    /// The size of the number, times `2^149`. For an infinity or a NaN this is the size
    /// that its pattern would have as an ordinary number; that of an infinity exceeds
    /// the size of every finite number.
    pub open spec fn size(self) -> int {
        self.significand() * pow2((self.scale() - 1) as nat)
    }

    /// The number, times `2^149`.
    pub open spec fn scaled(self) -> int {
        if self.sign_set() {
            -self.size()
        } else {
            self.size()
        }
    }

    /// Not a number: the exponent field is all ones and the fraction field is not zero.
    pub open spec fn spec_is_nan(self) -> bool {
        self.magnitude() > INFINITY_BITS
    }

    /// Neither infinite nor NaN.
    pub open spec fn spec_is_finite(self) -> bool {
        self.magnitude() < INFINITY_BITS
    }

    /// Place of the pattern among all patterns when they are read as integers of sign
    /// and magnitude. Patterns are in the order of their ranks exactly as the numbers
    /// they denote are in order: that is `lemma_rank_is_order`.
    pub open spec fn rank(self) -> int {
        if self.sign_set() {
            -self.magnitude()
        } else {
            self.magnitude()
        }
    }

    /// `self < other`: false as soon as one side is NaN, and the order of the ranks
    /// otherwise, which is the order of the numbers.
    pub open spec fn spec_lt(self, other: Scalar) -> bool {
        !self.is_nan() && !other.is_nan() && self.rank() < other.rank()
    }

    /// `self <= other`: false as soon as one side is NaN.
    pub open spec fn spec_le(self, other: Scalar) -> bool {
        !self.is_nan() && !other.is_nan() && self.rank() <= other.rank()
    }

    /// `self > 0`.
    pub open spec fn spec_is_positive(self) -> bool {
        !self.is_nan() && self.rank() > 0
    }

    /// Whether the number is exactly `numerator / 2^shift`.
    pub open spec fn is_fraction(self, numerator: int, shift: nat) -> bool {
        self.is_finite() && self.scaled() * pow2(shift) == numerator * pow2(149)
    }

    /// Whether the pattern is the encoding of `numerator / 2^shift`: it is that number,
    /// and its sign bit is set only if the number is negative.
    pub open spec fn encodes(self, numerator: int, shift: nat) -> bool {
        self.is_fraction(numerator, shift) && (self.sign_set() <==> numerator < 0)
    }

    /// The size of the number with its fractional part cut off.
    pub open spec fn whole_part(self) -> int {
        self.size() / (pow2(149) as int)
    }

    /// The colour channel for this number: its whole part, held to `0..=255`. Negative
    /// numbers and NaN give 0.
    pub open spec fn channel(self) -> int {
        if self.is_nan() || self.sign_set() {
            0
        } else if self.whole_part() > 255 {
            255
        } else {
            self.whole_part()
        }
    }

    /// The number with the given bits.
    pub fn from_bits(bits: u32) -> (s: Scalar)
        ensures
            s.bits == bits,
    {
        Scalar { bits }
    }

    /// The bits of the number.
    pub fn to_bits(self) -> (bits: u32)
        ensures
            bits == self.bits,
    {
        self.bits
    }

    /// Positive zero.
    pub fn zero() -> (s: Scalar)
        ensures
            s.bits == 0,
    {
        Scalar { bits: 0 }
    }

    /// The number one.
    pub fn one() -> (s: Scalar)
        ensures
            s.bits == ONE_BITS,
    {
        Scalar { bits: ONE_BITS }
    }

    /// Positive infinity.
    pub fn infinity() -> (s: Scalar)
        ensures
            s.bits == INFINITY_BITS,
    {
        Scalar { bits: INFINITY_BITS }
    }

    fn magnitude_bits(self) -> (m: u32)
        ensures
            m == self.magnitude(),
            m < SIGN_BIT,
    {
        if self.bits >= SIGN_BIT {
            self.bits - SIGN_BIT
        } else {
            self.bits
        }
    }

    /// Whether the number is NaN.
    #[verifier::when_used_as_spec(spec_is_nan)]
    pub fn is_nan(self) -> (b: bool)
        ensures
            b == self.is_nan(),
    {
        self.magnitude_bits() > INFINITY_BITS
    }

    /// Whether the number is neither infinite nor NaN.
    #[verifier::when_used_as_spec(spec_is_finite)]
    pub fn is_finite(self) -> (b: bool)
        ensures
            b == self.is_finite(),
    {
        self.magnitude_bits() < INFINITY_BITS
    }

    fn rank_value(self) -> (k: i64)
        ensures
            k == self.rank(),
    {
        let m: i64 = self.magnitude_bits() as i64;
        if self.bits >= SIGN_BIT {
            -m
        } else {
            m
        }
    }

    /// `self < other`.
    #[verifier::when_used_as_spec(spec_lt)]
    pub fn lt(self, other: Scalar) -> (b: bool)
        ensures
            b == self.lt(other),
    {
        !self.is_nan() && !other.is_nan() && self.rank_value() < other.rank_value()
    }

    /// `self <= other`.
    #[verifier::when_used_as_spec(spec_le)]
    pub fn le(self, other: Scalar) -> (b: bool)
        ensures
            b == self.le(other),
    {
        !self.is_nan() && !other.is_nan() && self.rank_value() <= other.rank_value()
    }

    /// `self > 0`.
    #[verifier::when_used_as_spec(spec_is_positive)]
    pub fn is_positive(self) -> (b: bool)
        ensures
            b == self.is_positive(),
    {
        !self.is_nan() && self.rank_value() > 0
    }

    /// Quantises the number to a colour channel: cuts off the fractional part and
    /// clamps to `0..=255`, with 0 for NaN.
    pub fn to_channel(self) -> (c: u8)
        ensures
            c == self.channel(),
            self.is_nan() || self.sign_set() || self.exponent() < 127 ==> c == 0,
            !self.is_nan() && !self.sign_set() && self.exponent() >= 135 ==> c == 255,
            !self.sign_set() && 127 <= self.exponent() < 135 ==> c == self.significand()
                / ones_in_significand(self.exponent()),
    {
        if self.is_nan() || self.bits >= SIGN_BIT {
            return 0;
        }
        let exponent: u32 = self.bits / FRACTION_SPAN;
        let fraction: u32 = self.bits % FRACTION_SPAN;
        proof {
            self.lemma_parts();
            self.lemma_size_bounds();
            lemma2_to64();
            lemma_pow2_pos(149);
        }
        if exponent < 127 {
            proof {
                let top = (23 + self.scale()) as nat;
                if top < 149 {
                    lemma_pow2_strictly_increases(top, 149);
                }
                lemma_basic_div(self.size(), pow2(149) as int);
            }
            0
        } else if exponent >= 135 {
            proof {
                let bottom = (22 + self.scale()) as nat;
                if 157 < bottom {
                    lemma_pow2_strictly_increases(157, bottom);
                }
                lemma_pow2_adds(149, 8);
                lemma_div_multiples_vanish(256, pow2(149) as int);
                lemma_div_is_ordered(pow2(149) as int * 256, self.size(), pow2(149) as int);
            }
            255
        } else {
            let significand: u32 = FRACTION_SPAN + fraction;
            let shift: u32 = 150 - exponent;
            let whole: u32 = significand >> shift;
            proof {
                let low = (exponent - 1) as nat;
                lemma_u32_shr_is_div(significand, shift);
                lemma_pow2_pos(low);
                lemma_pow2_pos(shift as nat);
                lemma_pow2_adds(low, shift as nat);
                lemma_div_multiples_vanish_quotient(
                    pow2(low) as int,
                    significand as int,
                    pow2(shift as nat) as int,
                );
                assert(self.size() == pow2(low) * significand) by (nonlinear_arith)
                    requires
                        self.size() == significand * pow2(low),
                ;
                assert(pow2(16) <= pow2(shift as nat)) by {
                    if shift > 16 {
                        lemma_pow2_strictly_increases(16, shift as nat);
                    }
                }
                lemma_div_is_ordered_by_denominator(
                    significand as int,
                    pow2(16) as int,
                    pow2(shift as nat) as int,
                );
                assert(significand as int / (pow2(16) as int) <= 255);
            }
            whole as u8
        }
    }

    /// The number `numerator / 2^shift`, which has an encoding of its own: the
    /// numerator fits the significand, and the number is not too small.
    pub fn fraction(numerator: i32, shift: u32) -> (x: Scalar)
        requires
            -0x0100_0000 < numerator < 0x0100_0000,
            shift <= 126,
        ensures
            x.encodes(numerator as int, shift as nat),
    {
        let size: u32 = if numerator < 0 {
            (-numerator) as u32
        } else {
            numerator as u32
        };
        if size == 0 {
            proof {
                lemma_zero_is_nothing(Scalar { bits: 0 });
                assert(0 * pow2(shift as nat) == 0 * pow2(149)) by (nonlinear_arith);
            }
            return Scalar { bits: 0 };
        }
        let mut significand: u32 = size;
        let mut exponent: u32 = 150 - shift;
        proof {
            lemma2_to64();
            assert(size * pow2(0) == size) by (nonlinear_arith)
                requires
                    pow2(0) == 1,
            ;
        }
        while significand < FRACTION_SPAN
            invariant
                0 < size < 0x0100_0000,
                shift <= 126,
                0 < significand < 0x0100_0000,
                127 <= exponent + shift <= 150,
                significand == size * pow2((150 - shift - exponent) as nat),
            decreases exponent,
        {
            proof {
                let doubled = (150 - shift - exponent) as nat;
                lemma2_to64();
                lemma_pow2_pos(doubled);
                assert(size * pow2(doubled) >= pow2(doubled)) by (nonlinear_arith)
                    requires
                        size >= 1,
                        pow2(doubled) > 0,
                ;
                if doubled > 23 {
                    lemma_pow2_strictly_increases(23, doubled);
                }
                assert(doubled < 23);
                lemma_pow2_adds(doubled, 1);
                assert(significand * 2 == size * pow2(doubled + 1)) by (nonlinear_arith)
                    requires
                        significand == size * pow2(doubled),
                        pow2(doubled + 1) == pow2(doubled) * 2,
                ;
            }
            significand = significand * 2;
            exponent = exponent - 1;
        }
        let magnitude: u32 = (exponent - 1) * FRACTION_SPAN + significand;
        let x = Scalar {
            bits: if numerator < 0 {
                magnitude + SIGN_BIT
            } else {
                magnitude
            },
        };
        proof {
            let doubled = (150 - shift - exponent) as nat;
            let low = (exponent - 1) as nat;
            assert(x.magnitude() == magnitude);
            lemma_fundamental_div_mod_converse(
                magnitude as int,
                FRACTION_SPAN as int,
                exponent as int,
                significand - FRACTION_SPAN,
            );
            assert(x.exponent() == exponent);
            assert(x.significand() == significand);
            assert(x.scale() == exponent);
            lemma_pow2_adds(doubled, low);
            lemma_pow2_adds(doubled + low, shift as nat);
            assert(x.size() * pow2(shift as nat) == size * pow2(149)) by (nonlinear_arith)
                requires
                    x.size() == significand * pow2(low),
                    significand == size * pow2(doubled),
                    pow2(doubled + low) == pow2(doubled) * pow2(low),
                    pow2(149) == pow2(doubled + low) * pow2(shift as nat),
            ;
            assert(x.scaled() * pow2(shift as nat) == numerator * pow2(149)) by (nonlinear_arith)
                requires
                    x.size() * pow2(shift as nat) == size * pow2(149),
                    x.scaled() == (if numerator < 0 {
                        -x.size()
                    } else {
                        x.size()
                    }),
                    size == (if numerator < 0 {
                        -numerator
                    } else {
                        numerator as int
                    }),
            ;
        }
        x
    }

    /// The pattern taken apart: the fields and their ranges.
    pub proof fn lemma_parts(self)
        ensures
            0 <= self.magnitude() < SIGN_BIT,
            0 <= self.exponent() <= 255,
            1 <= self.scale() <= 255,
            self.magnitude() == self.exponent() * FRACTION_SPAN + self.magnitude() % (
            FRACTION_SPAN as int),
            0 <= self.magnitude() % (FRACTION_SPAN as int) < FRACTION_SPAN,
            self.exponent() == 0 ==> 0 <= self.significand() < FRACTION_SPAN,
            self.exponent() >= 1 ==> FRACTION_SPAN <= self.significand() < 2 * FRACTION_SPAN,
            self.is_finite() <==> self.exponent() < 255,
    {
        let m = self.magnitude();
        let d = FRACTION_SPAN as int;
        lemma_fundamental_div_mod(m, d);
        lemma_div_pos_is_pos(m, d);
        assert(m / d <= 255) by (nonlinear_arith)
            requires
                m < 256 * d,
                m == d * (m / d) + m % d,
                0 <= m % d,
                d > 0,
        ;
        assert(m == (m / d) * d + m % d) by (nonlinear_arith)
            requires
                m == d * (m / d) + m % d,
        ;
        assert((m < 255 * d) <==> (m / d < 255)) by (nonlinear_arith)
            requires
                m == d * (m / d) + m % d,
                0 <= m % d < d,
                d > 0,
        ;
    }

    /// The size of a number lies between the powers of two that its exponent field
    /// names.
    pub proof fn lemma_size_bounds(self)
        ensures
            0 <= self.size() < pow2((23 + self.scale()) as nat),
            self.exponent() == 0 ==> self.size() < pow2(23),
            self.exponent() >= 1 ==> pow2((22 + self.scale()) as nat) <= self.size(),
    {
        self.lemma_parts();
        lemma2_to64();
        let low = (self.scale() - 1) as nat;
        let p = pow2(low) as int;
        let s = self.significand();
        lemma_pow2_pos(low);
        lemma_pow2_adds(24, low);
        lemma_pow2_adds(23, low);
        assert(0 <= s * p < pow2(24) * p) by (nonlinear_arith)
            requires
                0 <= s < pow2(24),
                p > 0,
        ;
        if self.exponent() == 0 {
            assert(s * p == s) by (nonlinear_arith)
                requires
                    p == 1,
            ;
        } else {
            assert(pow2(23) * p <= s * p) by (nonlinear_arith)
                requires
                    pow2(23) <= s,
                    p > 0,
            ;
        }
    }
}

/// Only a zero has size nothing.
pub proof fn lemma_zero_is_nothing(a: Scalar)
    ensures
        a.size() >= 0,
        a.size() == 0 <==> a.magnitude() == 0,
{
    a.lemma_parts();
    a.lemma_size_bounds();
    lemma2_to64();
    if a.exponent() >= 1 {
        lemma_pow2_pos((22 + a.scale()) as nat);
    } else {
        assert(a.size() == a.significand()) by (nonlinear_arith)
            requires
                a.size() == a.significand() * pow2(0),
                pow2(0) == 1,
        ;
    }
}

/// Among patterns, a larger magnitude is a larger size.
pub proof fn lemma_size_is_monotone(a: Scalar, b: Scalar)
    requires
        a.magnitude() < b.magnitude(),
    ensures
        a.size() < b.size(),
{
    a.lemma_parts();
    b.lemma_parts();
    a.lemma_size_bounds();
    b.lemma_size_bounds();
    lemma_div_is_ordered(a.magnitude(), b.magnitude(), FRACTION_SPAN as int);
    if a.exponent() == b.exponent() {
        let low = (a.scale() - 1) as nat;
        lemma_pow2_pos(low);
        lemma_mul_strict_inequality(a.significand(), b.significand(), pow2(low) as int);
    } else {
        let top = (if a.exponent() == 0 {
            23
        } else {
            23 + a.scale()
        }) as nat;
        let bottom = (22 + b.scale()) as nat;
        if top < bottom {
            lemma_pow2_strictly_increases(top, bottom);
        }
    }
}

/// Comparing patterns as integers of sign and magnitude compares the numbers: `lt` and
/// `le` are the order of the numbers denoted.
pub proof fn lemma_rank_is_order(a: Scalar, b: Scalar)
    ensures
        a.rank() < b.rank() <==> a.scaled() < b.scaled(),
        a.rank() == b.rank() <==> a.scaled() == b.scaled(),
        a.lt(b) <==> !a.is_nan() && !b.is_nan() && a.scaled() < b.scaled(),
        a.le(b) <==> !a.is_nan() && !b.is_nan() && a.scaled() <= b.scaled(),
        a.is_positive() <==> !a.is_nan() && a.scaled() > 0,
{
    lemma_zero_is_nothing(a);
    lemma_zero_is_nothing(b);
    if a.magnitude() < b.magnitude() {
        lemma_size_is_monotone(a, b);
    } else if b.magnitude() < a.magnitude() {
        lemma_size_is_monotone(b, a);
    }
}

/// `lt` is a strict order: nothing is below itself, and it carries over.
pub proof fn lemma_lt_is_strict(a: Scalar, b: Scalar, c: Scalar)
    ensures
        !a.lt(a),
        a.lt(b) ==> !b.lt(a),
        a.lt(b) && b.lt(c) ==> a.lt(c),
        a.lt(b) && b.le(c) ==> a.lt(c),
        a.le(b) && b.lt(c) ==> a.lt(c),
{
}

/// Of two numbers that are not NaN, one is below the other or they are equal.
pub proof fn lemma_lt_is_total(a: Scalar, b: Scalar)
    requires
        !a.is_nan(),
        !b.is_nan(),
    ensures
        a.lt(b) || b.lt(a) || a.scaled() == b.scaled(),
        a.le(b) <==> !b.lt(a),
{
    lemma_rank_is_order(a, b);
}

/// The pattern `ONE_BITS` is the number one, and the pattern of all zeros is zero.
pub proof fn lemma_one_and_zero()
    ensures
        (Scalar { bits: ONE_BITS }).is_fraction(1, 0),
        (Scalar { bits: 0 }).is_fraction(0, 0),
{
    let one = Scalar { bits: ONE_BITS };
    lemma2_to64();
    lemma_pow2_adds(23, 126);
    assert(one.magnitude() == 127 * FRACTION_SPAN);
    assert(one.exponent() == 127);
    assert(one.significand() == FRACTION_SPAN);
    lemma_zero_is_nothing(Scalar { bits: 0 });
}

/// A fraction may be expanded: `n / 2^s` is `(n * 2^t) / 2^(s + t)`.
pub proof fn lemma_fraction_scales(a: Scalar, n: int, shift: nat, by: nat)
    requires
        a.is_fraction(n, shift),
    ensures
        a.is_fraction(n * pow2(by), shift + by),
{
    lemma_pow2_adds(shift, by);
    assert(a.scaled() * (pow2(shift) * pow2(by)) == (n * pow2(by)) * pow2(149)) by (nonlinear_arith)
        requires
            a.scaled() * pow2(shift) == n * pow2(149),
    ;
}

/// A number has one encoding.
pub proof fn lemma_encoding_is_unique(a: Scalar, b: Scalar, n: int, shift: nat)
    requires
        a.encodes(n, shift),
        b.encodes(n, shift),
    ensures
        a == b,
{
    lemma_pow2_pos(shift);
    let p = pow2(shift) as int;
    assert(a.scaled() == b.scaled()) by (nonlinear_arith)
        requires
            a.scaled() * p == b.scaled() * p,
            p > 0,
    ;
    lemma_rank_is_order(a, b);
}

/// Fractions over the same power of two are ordered as their numerators are.
pub proof fn lemma_fractions_in_order(a: Scalar, n: int, b: Scalar, m: int, shift: nat)
    requires
        a.is_fraction(n, shift),
        b.is_fraction(m, shift),
    ensures
        a.lt(b) <==> n < m,
        a.le(b) <==> n <= m,
{
    lemma_rank_is_order(a, b);
    lemma_pow2_pos(shift);
    lemma_pow2_pos(149);
    let p = pow2(shift) as int;
    let q = pow2(149) as int;
    assert((a.scaled() < b.scaled()) <==> (n < m)) by (nonlinear_arith)
        requires
            a.scaled() * p == n * q,
            b.scaled() * p == m * q,
            p > 0,
            q > 0,
    ;
    assert((a.scaled() <= b.scaled()) <==> (n <= m)) by (nonlinear_arith)
        requires
            a.scaled() * p == n * q,
            b.scaled() * p == m * q,
            p > 0,
            q > 0,
    ;
}

/// A channel is a byte.
pub proof fn lemma_channel_is_a_byte(a: Scalar)
    ensures
        0 <= a.channel() <= 255,
{
    lemma_zero_is_nothing(a);
    lemma_pow2_pos(149);
    lemma_div_pos_is_pos(a.size(), pow2(149) as int);
}

/// Quantising keeps the order: of two numbers, the larger never gets the smaller
/// channel.
pub proof fn lemma_channel_is_monotone(a: Scalar, b: Scalar)
    requires
        a.le(b),
    ensures
        a.channel() <= b.channel(),
{
    lemma_rank_is_order(a, b);
    lemma_channel_is_a_byte(a);
    lemma_channel_is_a_byte(b);
    lemma_zero_is_nothing(a);
    lemma_zero_is_nothing(b);
    lemma_pow2_pos(149);
    if !a.sign_set() {
        if b.sign_set() {
            lemma_basic_div(a.size(), pow2(149) as int);
        } else {
            lemma_div_is_ordered(a.size(), b.size(), pow2(149) as int);
        }
    }
}

} // verus!
