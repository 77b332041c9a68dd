//! The numbers on which the renderer decides.
//!
//! The renderer's arithmetic is done in double precision outside this crate.
//! What comes back is held here by its IEEE 754 encoding: one sign bit, then
//! eleven exponent bits and fifty-two fraction bits that, read as one
//! integer, grow with the magnitude of the number they encode. On the
//! encoding a number is compared with another, negated, and cut down to a
//! byte.

use vstd::prelude::*;
use vstd::arithmetic::div_mod::{
    lemma_basic_div,
    lemma_div_by_multiple,
    lemma_div_is_ordered,
    lemma_div_is_ordered_by_denominator,
    lemma_div_multiples_vanish_quotient,
};
use vstd::arithmetic::power2::{
    lemma2_to64,
    lemma2_to64_rest,
    lemma_pow2_adds,
    lemma_pow2_pos,
    lemma_pow2_strictly_increases,
    lemma_pow2_unfold,
    pow2,
};

verus! {

/// The sign bit of an encoding.
pub const SIGN_BIT: u64 = 0x8000_0000_0000_0000;

/// The encoding of positive infinity; a larger magnitude encodes no number.
pub const INFINITY_BITS: u64 = 0x7ff0_0000_0000_0000;

/// The encoding of one.
pub const ONE_BITS: u64 = 0x3ff0_0000_0000_0000;

/// The number of fractions that one exponent spans: two to the power of 52.
pub const FRACTION_SPAN: u64 = 0x0010_0000_0000_0000;

/// How large the number with the given magnitude is, counted in the smallest
/// step that an encoding can make, which is two to the power of -1074. The
/// exponent field is the magnitude's upper part and the fraction its lower
/// part. With an exponent field of zero the fraction is the count; above
/// that, the fraction is led by a one and doubled once for each step of the
/// exponent but the first.
pub open spec fn steps(magnitude: int) -> int {
    let exponent = magnitude / (FRACTION_SPAN as int);
    let fraction = magnitude % (FRACTION_SPAN as int);
    if exponent == 0 {
        fraction
    } else {
        (FRACTION_SPAN + fraction) * pow2((exponent - 1) as nat)
    }
}

/// A double-precision number, held by its encoding.
#[derive(Clone, Copy, Debug)]
pub struct Scalar {
    pub bits: u64,
}

impl Scalar {
    /// Whether the sign bit is set.
    pub open spec fn sign(self) -> bool {
        self.bits >= SIGN_BIT
    }

    /// The encoding without its sign bit.
    pub open spec fn magnitude(self) -> int {
        if self.sign() {
            self.bits - SIGN_BIT
        } else {
            self.bits as int
        }
    }

    /// Whether the encoding stands for no number.
    pub open spec fn is_nan(self) -> bool {
        self.magnitude() > INFINITY_BITS
    }

    /// The place of a number in the order of all of them: the magnitude,
    /// counted downwards from zero for a number with the sign bit set. Both
    /// zeros have rank zero.
    pub open spec fn rank(self) -> int {
        if self.sign() {
            -self.magnitude()
        } else {
            self.magnitude()
        }
    }

    /// The number that the encoding stands for, counted in steps of two to
    /// the power of -1074. Infinity stands here for the power of two above
    /// every number. Of an encoding of no number it says nothing.
    pub open spec fn value(self) -> int {
        if self.sign() {
            -steps(self.magnitude())
        } else {
            steps(self.magnitude())
        }
    }

    /// The whole part of a number that is not negative: one is 2 to the
    /// power of 1074 steps.
    pub open spec fn whole(self) -> int {
        self.value() / (pow2(1074) as int)
    }

    /// The byte that a number is cut down to: its whole part, held within
    /// 0 and 255, and 0 for what stands for no number.
    pub open spec fn byte(self) -> u8 {
        if self.is_nan() || self.value() <= 0 {
            0u8
        } else if self.whole() >= 255 {
            255u8
        } else {
            self.whole() as u8
        }
    }

    /// The number with the other sign: the same encoding but for the sign
    /// bit.
    pub open spec fn negated(self) -> Scalar {
        if self.sign() {
            Scalar { bits: (self.bits - SIGN_BIT) as u64 }
        } else {
            Scalar { bits: (self.bits + SIGN_BIT) as u64 }
        }
    }

    /// `self < other` as IEEE 754 has it: false where either side is no number.
    pub open spec fn less(self, other: Scalar) -> bool {
        !self.is_nan() && !other.is_nan() && self.rank() < other.rank()
    }

    /// `self >= other` as IEEE 754 has it: false where either side is no number.
    pub open spec fn at_least(self, other: Scalar) -> bool {
        !self.is_nan() && !other.is_nan() && self.rank() >= other.rank()
    }

    /// The number with the given encoding.
    pub fn from_bits(bits: u64) -> (scalar: Scalar)
        ensures
            scalar.bits == bits,
    {
        Scalar { bits }
    }

    /// The encoding of the number.
    pub fn to_bits(self) -> (bits: u64)
        ensures
            bits == self.bits,
    {
        self.bits
    }

    /// Zero, with the sign bit clear.
    pub open spec fn spec_zero() -> Scalar {
        Scalar { bits: 0 }
    }

    /// One.
    pub open spec fn spec_one() -> Scalar {
        Scalar { bits: ONE_BITS }
    }

    /// Zero, with the sign bit clear.
    #[verifier::when_used_as_spec(spec_zero)]
    pub fn zero() -> (scalar: Scalar)
        ensures
            scalar == Scalar::spec_zero(),
    {
        Scalar { bits: 0 }
    }

    /// One.
    #[verifier::when_used_as_spec(spec_one)]
    pub fn one() -> (scalar: Scalar)
        ensures
            scalar == Scalar::spec_one(),
    {
        Scalar { bits: ONE_BITS }
    }

    fn key(self) -> (key: i64)
        ensures
            key == self.rank(),
    {
        if self.bits >= SIGN_BIT {
            let magnitude: u64 = self.bits - SIGN_BIT;
            -(magnitude as i64)
        } else {
            self.bits as i64
        }
    }

    /// Whether the encoding stands for no number.
    pub fn nan(self) -> (nan: bool)
        ensures
            nan == self.is_nan(),
    {
        if self.bits >= SIGN_BIT {
            self.bits - SIGN_BIT > INFINITY_BITS
        } else {
            self.bits > INFINITY_BITS
        }
    }

    /// `-self`.
    pub fn neg(self) -> (negated: Scalar)
        ensures
            negated == self.negated(),
    {
        if self.bits >= SIGN_BIT {
            Scalar { bits: self.bits - SIGN_BIT }
        } else {
            Scalar { bits: self.bits + SIGN_BIT }
        }
    }

    /// `self < other`.
    pub fn lt(self, other: Scalar) -> (holds: bool)
        ensures
            holds == self.less(other),
    {
        !self.nan() && !other.nan() && self.key() < other.key()
    }

    /// `self > other`.
    pub fn gt(self, other: Scalar) -> (holds: bool)
        ensures
            holds == other.less(self),
    {
        other.lt(self)
    }

    /// `self >= other`.
    pub fn ge(self, other: Scalar) -> (holds: bool)
        ensures
            holds == self.at_least(other),
    {
        !self.nan() && !other.nan() && self.key() >= other.key()
    }

    /// The number cut down to a byte, as a cast does it: towards zero, and
    /// to the nearest byte for a number beyond them all.
    pub fn to_byte(self) -> (byte: u8)
        ensures
            byte == self.byte(),
    {
        if self.nan() {
            return 0;
        }
        if self.bits >= SIGN_BIT {
            proof {
                lemma_steps_of_small(self.magnitude());
            }
            return 0;
        }
        if self.bits < ONE_BITS {
            proof {
                lemma_steps_of_small(self.bits as int);
                lemma_basic_div(self.value(), pow2(1074) as int);
            }
            return 0;
        }
        let exponent: u64 = self.bits / FRACTION_SPAN;
        let significand: u64 = FRACTION_SPAN + self.bits % FRACTION_SPAN;
        if exponent >= 1031 {
            proof {
                lemma_steps_of_large(self.bits as int);
            }
            return 255;
        }
        let doublings: u64 = exponent - 1023;
        let mut divisor: u64 = FRACTION_SPAN;
        let mut i: u64 = 0;
        proof {
            lemma2_to64_rest();
        }
        while i < doublings
            invariant
                i <= doublings <= 7,
                divisor == pow2((52 - i) as nat),
            decreases doublings - i,
        {
            proof {
                lemma_pow2_unfold((52 - i) as nat);
            }
            divisor = divisor / 2;
            i = i + 1;
        }
        proof {
            lemma_whole_of_middle(self.bits as int);
            if doublings < 7 {
                lemma_pow2_strictly_increases(45, (52 - doublings) as nat);
            }
            lemma_div_is_ordered_by_denominator(
                significand as int,
                pow2(45) as int,
                divisor as int,
            );
        }
        (significand / divisor) as u8
    }
}

/// Below one a number has less than the steps of one, and never fewer than
/// none.
proof fn lemma_steps_of_small(magnitude: int)
    requires
        0 <= magnitude <= INFINITY_BITS,
    ensures
        0 <= steps(magnitude),
        magnitude < ONE_BITS ==> steps(magnitude) < pow2(1074),
        magnitude == 0 <==> steps(magnitude) == 0,
{
    lemma2_to64_rest();
    lemma_pow2_adds(52, 1022);
    assert(steps(ONE_BITS as int) == pow2(1074)) by {
        assert(ONE_BITS as int / (FRACTION_SPAN as int) == 1023);
        assert(ONE_BITS as int % (FRACTION_SPAN as int) == 0);
    }
    if 0 < magnitude {
        lemma_steps_increase(0, magnitude);
    }
    if magnitude < ONE_BITS {
        lemma_steps_increase(magnitude, ONE_BITS as int);
    }
}

/// From two to the power of eight on, the whole part is beyond every byte.
proof fn lemma_steps_of_large(magnitude: int)
    requires
        1031 * FRACTION_SPAN <= magnitude <= INFINITY_BITS,
    ensures
        steps(magnitude) / (pow2(1074) as int) >= 256,
        steps(magnitude) > 0,
{
    let least = 1031 * FRACTION_SPAN;
    let one = pow2(1074) as int;
    lemma2_to64();
    lemma2_to64_rest();
    lemma_pow2_adds(52, 1030);
    lemma_pow2_adds(8, 1074);
    lemma_pow2_pos(1074);
    assert(steps(least) == 256 * one) by {
        assert(least / (FRACTION_SPAN as int) == 1031);
        assert(least % (FRACTION_SPAN as int) == 0);
    }
    if least < magnitude {
        lemma_steps_increase(least, magnitude);
    }
    lemma_div_by_multiple(256, one);
    lemma_div_is_ordered(256 * one, steps(magnitude), one);
}

/// Between one and two to the power of eight, the whole part is the
/// significand without the fraction bits that lie behind the point.
proof fn lemma_whole_of_middle(magnitude: int)
    requires
        1023 * FRACTION_SPAN <= magnitude < 1031 * FRACTION_SPAN,
    ensures
        steps(magnitude) > 0,
        steps(magnitude) / (pow2(1074) as int) == (FRACTION_SPAN + magnitude % (
        FRACTION_SPAN as int)) / (pow2((1075 - magnitude / (FRACTION_SPAN as int)) as nat) as int),
{
    let span = FRACTION_SPAN as int;
    let exponent = magnitude / span;
    let significand = span + magnitude % span;
    let behind = pow2((1075 - exponent) as nat) as int;
    let before = pow2((exponent - 1) as nat) as int;
    lemma_pow2_pos((1075 - exponent) as nat);
    lemma_pow2_pos((exponent - 1) as nat);
    lemma_pow2_adds((exponent - 1) as nat, (1075 - exponent) as nat);
    lemma_div_multiples_vanish_quotient(before, significand, behind);
    assert(significand * before == before * significand) by (nonlinear_arith);
    assert(steps(magnitude) > 0) by (nonlinear_arith)
        requires
            steps(magnitude) == significand * before,
            significand > 0,
            before > 0,
    ;
}

/// Negation mirrors a number at zero and is undone by itself: the rank and
/// the value change their sign and nothing else, and what stands for no
/// number goes on to do so.
pub proof fn lemma_negation_mirrors(a: Scalar)
    ensures
        a.negated().negated() == a,
        a.negated().is_nan() == a.is_nan(),
        a.negated().rank() == -a.rank(),
        a.negated().value() == -a.value(),
{
}

proof fn lemma_steps_increase(smaller: int, larger: int)
    requires
        0 <= smaller < larger <= INFINITY_BITS,
    ensures
        0 <= steps(smaller) < steps(larger),
{
    let span = FRACTION_SPAN as int;
    let (e1, f1) = (smaller / span, smaller % span);
    let (e2, f2) = (larger / span, larger % span);
    assert(e1 <= e2) by (nonlinear_arith)
        requires
            e1 * span + f1 < e2 * span + f2,
            0 <= f1 < span,
            0 <= f2 < span,
    ;
    if e1 == e2 {
        if e1 > 0 {
            let scale = pow2((e1 - 1) as nat) as int;
            lemma_pow2_pos((e1 - 1) as nat);
            assert(0 <= (span + f1) * scale < (span + f2) * scale) by (nonlinear_arith)
                requires
                    0 <= f1 < f2,
                    span > 0,
                    scale > 0,
            ;
        }
    } else {
        let scale2 = pow2((e2 - 1) as nat) as int;
        lemma_pow2_pos((e2 - 1) as nat);
        assert(span * 1 <= (span + f2) * scale2) by (nonlinear_arith)
            requires
                0 <= f2,
                span > 0,
                scale2 >= 1,
        ;
        if e1 > 0 {
            let scale1 = pow2((e1 - 1) as nat) as int;
            lemma_pow2_pos((e1 - 1) as nat);
            lemma_pow2_unfold(e1 as nat);
            if e1 < e2 - 1 {
                lemma_pow2_strictly_increases(e1 as nat, (e2 - 1) as nat);
            }
            assert(0 <= (span + f1) * scale1 < (span + f2) * scale2) by (nonlinear_arith)
                requires
                    0 <= f1 < span,
                    0 <= f2,
                    scale1 > 0,
                    2 * scale1 <= scale2,
            ;
        }
    }
}

/// The order of the ranks is the order of the numbers: of two encodings
/// that stand for numbers, the one of lower rank stands for the smaller
/// number, and two of one rank stand for the same number.
pub proof fn lemma_rank_orders_values(a: Scalar, b: Scalar)
    requires
        !a.is_nan(),
        !b.is_nan(),
    ensures
        a.rank() < b.rank() <==> a.value() < b.value(),
        a.rank() == b.rank() <==> a.value() == b.value(),
{
    let (m, n) = (a.magnitude(), b.magnitude());
    assert(steps(0) == 0);
    if m > 0 {
        lemma_steps_increase(0, m);
    }
    if n > 0 {
        lemma_steps_increase(0, n);
    }
    if m < n {
        lemma_steps_increase(m, n);
    }
    if n < m {
        lemma_steps_increase(n, m);
    }
}

} // verus!
