//! IEEE 754 binary64 values held as their bit patterns.
//!
//! Nothing here computes with the values: products, quotients, sums and
//! differences are made by the caller's hardware and come back as bit
//! patterns. What this module decides is what can be read off an encoding
//! with integer arithmetic alone: whether it is a number at all, its sign,
//! how two encodings are ordered, and the encoding of a small integer.
//!
//! An encoding has a sign bit, eleven exponent bits and fifty-two fraction
//! bits. The number it stands for is its significand times a power of two;
//! in units of 2^-1075 every number is an integer, and that integer is what
//! the contracts call the scaled value. With the sign bit taken off, the
//! encodings of the numbers and of positive infinity are ordered as the
//! magnitudes they stand for, and every encoding above that of infinity is
//! not a number.

use vstd::arithmetic::power2::*;
use vstd::prelude::*;

verus! {

/// The encoding in which only the sign bit is set.
pub const SIGN_BIT: u64 = 0x8000_0000_0000_0000;

/// The encoding of positive infinity.
pub const INFINITY_BITS: u64 = 0x7FF0_0000_0000_0000;

/// The weight of the lowest exponent bit.
pub const EXPONENT_UNIT: u64 = 0x0010_0000_0000_0000;

/// The encoding of one.
pub const ONE_BITS: u64 = 0x3FF0_0000_0000_0000;

/// The encoding of one hundred.
pub const HUNDRED_BITS: u64 = 0x4059_0000_0000_0000;

/// A binary64 value, carried as its 64-bit encoding.
///
/// Two values are `==` when their encodings are the same, which is finer
/// than numeric equality: the two zeros differ, and so do two encodings that
/// are not numbers.
#[derive(Clone, Copy, Debug, PartialEq, Eq, Structural)]
pub struct Binary64 {
    pub bits: u64,
}

/// Positive zero.
pub open spec fn zero() -> Binary64 {
    Binary64 { bits: 0 }
}

/// One.
pub open spec fn one() -> Binary64 {
    Binary64 { bits: ONE_BITS }
}

/// One hundred.
pub open spec fn hundred() -> Binary64 {
    Binary64 { bits: HUNDRED_BITS }
}

impl Binary64 {
    /// Whether the sign bit is set.
    pub open spec fn negative(self) -> bool {
        self.bits >= SIGN_BIT
    }

    /// The encoding with the sign bit taken off.
    pub open spec fn magnitude(self) -> int {
        if self.bits >= SIGN_BIT {
            self.bits - SIGN_BIT
        } else {
            self.bits as int
        }
    }

    /// Whether the encoding is not a number.
    pub open spec fn nan(self) -> bool {
        self.magnitude() > INFINITY_BITS
    }

    /// The place of a number on the line: its magnitude, counted downwards
    /// from zero where the sign bit is set. Both zeros stand at 0.
    pub open spec fn rank(self) -> int {
        if self.negative() {
            -self.magnitude()
        } else {
            self.magnitude()
        }
    }

    /// Numeric `<`: both are numbers and `self` stands lower on the line.
    pub open spec fn below(self, other: Binary64) -> bool {
        !self.nan() && !other.nan() && self.rank() < other.rank()
    }

    /// Numeric `> 0`.
    pub open spec fn positive(self) -> bool {
        zero().below(self)
    }

    /// The absolute value: the same encoding with the sign bit cleared.
    pub open spec fn absolute(self) -> Binary64 {
        Binary64 { bits: self.magnitude() as u64 }
    }

    /// The exponent field.
    pub open spec fn biased_exponent(self) -> int {
        self.magnitude() / (EXPONENT_UNIT as int)
    }

    /// The integer that the fraction field and the implicit leading bit make.
    pub open spec fn significand(self) -> int {
        if self.biased_exponent() == 0 {
            self.magnitude() % (EXPONENT_UNIT as int)
        } else {
            EXPONENT_UNIT + self.magnitude() % (EXPONENT_UNIT as int)
        }
    }

    /// The power of two that weighs the significand: the exponent field, and 1
    /// for the numbers below the smallest normal one, whose exponent field
    /// is 0.
    pub open spec fn weight(self) -> nat {
        if self.biased_exponent() <= 0 {
            1
        } else {
            self.biased_exponent() as nat
        }
    }

    /// The magnitude of the number in units of 2^-1075: the significand times
    /// two to the weight. Infinity stands where 2^1024 would, beyond every
    /// number.
    pub open spec fn scaled_magnitude(self) -> int {
        self.significand() * pow2(self.weight())
    }

    /// The number in units of 2^-1075. Both zeros are 0.
    pub open spec fn scaled(self) -> int {
        if self.negative() {
            -self.scaled_magnitude()
        } else {
            self.scaled_magnitude()
        }
    }

    /// Whether this is the encoding of the integer `n`: a number, without the
    /// sign bit, whose value is `n`.
    pub open spec fn encodes_count(self, n: nat) -> bool {
        &&& !self.negative()
        &&& !self.nan()
        &&& self.scaled() == n * pow2(1075)
    }

    /// The value of the count `n`.
    pub open spec fn count_value(n: nat) -> Binary64 {
        choose|value: Binary64| value.encodes_count(n)
    }

    /// The value whose encoding is `bits`.
    pub fn from_bits(bits: u64) -> (value: Binary64)
        ensures
            value.bits == bits,
    {
        Binary64 { bits }
    }

    /// The encoding of the value.
    pub fn to_bits(&self) -> (bits: u64)
        ensures
            bits == self.bits,
    {
        self.bits
    }

    /// Positive zero.
    pub fn zero() -> (value: Binary64)
        ensures
            value == zero(),
            value.encodes_count(0),
    {
        proof {
            lemma_constants_are_their_numbers();
        }
        Binary64 { bits: 0 }
    }

    /// One.
    pub fn one() -> (value: Binary64)
        ensures
            value == one(),
            value.encodes_count(1),
    {
        proof {
            lemma_constants_are_their_numbers();
        }
        Binary64 { bits: ONE_BITS }
    }

    /// One hundred.
    pub fn hundred() -> (value: Binary64)
        ensures
            value == hundred(),
            value.encodes_count(100),
    {
        proof {
            lemma_constants_are_their_numbers();
        }
        Binary64 { bits: HUNDRED_BITS }
    }

    /// Whether the value is not a number.
    pub fn is_nan(&self) -> (r: bool)
        ensures
            r == self.nan(),
    {
        if self.bits >= SIGN_BIT {
            self.bits - SIGN_BIT > INFINITY_BITS
        } else {
            self.bits > INFINITY_BITS
        }
    }

    /// Numeric `self < other`. False whenever either side is not a number;
    /// the two zeros are equal, so neither is less than the other.
    pub fn less_than(&self, other: &Binary64) -> (r: bool)
        ensures
            r == self.below(*other),
            r == (!self.nan() && !other.nan() && self.scaled() < other.scaled()),
    {
        proof {
            lemma_rank_orders_the_numbers(*self, *other);
        }
        if self.is_nan() || other.is_nan() {
            return false;
        }
        if self.bits >= SIGN_BIT {
            if other.bits >= SIGN_BIT {
                self.bits > other.bits
            } else {
                self.bits > SIGN_BIT || other.bits > 0
            }
        } else {
            other.bits < SIGN_BIT && self.bits < other.bits
        }
    }

    /// Numeric `self > other`.
    pub fn greater_than(&self, other: &Binary64) -> (r: bool)
        ensures
            r == other.below(*self),
            r == (!self.nan() && !other.nan() && self.scaled() > other.scaled()),
    {
        other.less_than(self)
    }

    /// Numeric `self > 0`: a number, not negative and not zero. Positive
    /// infinity is positive.
    pub fn is_positive(&self) -> (r: bool)
        ensures
            r == self.positive(),
            r == (!self.nan() && self.scaled() > 0),
    {
        proof {
            lemma_rank_orders_the_numbers(zero(), *self);
            lemma_constants_are_their_numbers();
        }
        0 < self.bits && self.bits <= INFINITY_BITS
    }

    /// The absolute value: the same encoding with the sign bit cleared. What
    /// is not a number stays so.
    pub fn abs(&self) -> (value: Binary64)
        ensures
            value == self.absolute(),
            !value.negative(),
            value.nan() == self.nan(),
            value.scaled() == self.scaled_magnitude(),
    {
        if self.bits >= SIGN_BIT {
            Binary64 { bits: self.bits - SIGN_BIT }
        } else {
            *self
        }
    }

    /// The value of a count. Every `u32` is below 2^53, so the conversion is
    /// exact.
    pub fn from_count(n: u32) -> (value: Binary64)
        ensures
            value.encodes_count(n as nat),
            value == Binary64::count_value(n as nat),
    {
        if n == 0 {
            let value = Binary64 { bits: 0 };
            proof {
                assert(value.scaled() == 0) by (nonlinear_arith)
                    requires
                        value.significand() == 0,
                        value.scaled() == value.significand() * pow2(value.weight()),
                ;
                lemma_count_has_one_encoding(value, Binary64::count_value(0), 0);
            }
            return value;
        }
        let mut scaled: u64 = n as u64;
        let mut shift: u64 = 0;
        proof {
            lemma2_to64();
        }
        while scaled < EXPONENT_UNIT
            invariant
                0 < n,
                shift <= 52,
                scaled == n * pow2(shift as nat),
                0 < scaled < 2 * EXPONENT_UNIT,
                scaled < EXPONENT_UNIT ==> shift < 52,
            decreases 52 - shift,
        {
            proof {
                lemma_pow2_unfold((shift + 1) as nat);
                assert(n * (2 * pow2(shift as nat)) == 2 * (n * pow2(shift as nat)))
                    by (nonlinear_arith);
                if shift == 51 {
                    lemma2_to64_rest();
                    assert(n * pow2(52) >= pow2(52)) by (nonlinear_arith)
                        requires
                            n >= 1,
                    ;
                }
            }
            scaled = scaled * 2;
            shift = shift + 1;
        }
        let exponent: u64 = 1075 - shift;
        let bits: u64 = exponent * EXPONENT_UNIT + (scaled - EXPONENT_UNIT);
        let value = Binary64 { bits };
        proof {
            let fraction = scaled - EXPONENT_UNIT;
            assert((exponent * (EXPONENT_UNIT as int) + fraction) / (EXPONENT_UNIT as int)
                == exponent && (exponent * (EXPONENT_UNIT as int) + fraction) % (
            EXPONENT_UNIT as int) == fraction) by (nonlinear_arith)
                requires
                    0 <= fraction < EXPONENT_UNIT,
                    EXPONENT_UNIT > 0,
            ;
            assert(value.weight() == exponent);
            lemma_pow2_adds(shift as nat, exponent as nat);
            assert(value.scaled() == n * pow2(1075)) by (nonlinear_arith)
                requires
                    value.scaled() == scaled * pow2(exponent as nat),
                    scaled == n * pow2(shift as nat),
                    pow2(1075) == pow2(shift as nat) * pow2(exponent as nat),
            ;
            lemma_count_has_one_encoding(value, Binary64::count_value(n as nat), n as nat);
        }
        value
    }
}

/// The order of the encodings is the order of the numbers: of two encodings
/// that are numbers, one stands lower on the line exactly where the number
/// it stands for is the smaller, and two stand at one place exactly where
/// their numbers are equal.
pub proof fn lemma_rank_orders_the_numbers(x: Binary64, y: Binary64)
    ensures
        (x.rank() < y.rank()) == (x.scaled() < y.scaled()),
        (x.rank() == y.rank()) == (x.scaled() == y.scaled()),
        x.below(y) == (!x.nan() && !y.nan() && x.scaled() < y.scaled()),
{
    lemma_magnitude_orders_the_numbers(x, y);
    lemma_magnitude_orders_the_numbers(y, x);
    lemma_magnitude_orders_the_numbers(x, zero());
    lemma_magnitude_orders_the_numbers(y, zero());
    lemma_magnitude_orders_the_numbers(zero(), x);
    lemma_magnitude_orders_the_numbers(zero(), y);
    assert(zero().scaled_magnitude() == 0) by (nonlinear_arith)
        requires
            zero().significand() == 0,
            zero().scaled_magnitude() == zero().significand() * pow2(zero().weight()),
    ;
}

/// With the sign bit taken off, a smaller encoding stands for a smaller
/// magnitude.
proof fn lemma_magnitude_orders_the_numbers(x: Binary64, y: Binary64)
    ensures
        x.magnitude() < y.magnitude() ==> x.scaled_magnitude() < y.scaled_magnitude(),
        x.magnitude() == y.magnitude() ==> x.scaled_magnitude() == y.scaled_magnitude(),
        0 <= x.scaled_magnitude(),
{
    let unit = EXPONENT_UNIT as int;
    let ex = x.biased_exponent();
    let ey = y.biased_exponent();
    let fx = x.magnitude() % unit;
    let fy = y.magnitude() % unit;
    let px = pow2(x.weight());
    let py = pow2(y.weight());
    lemma_pow2_pos(x.weight());
    lemma_pow2_pos(y.weight());
    assert(x.magnitude() == unit * ex + fx && 0 <= fx < unit && 0 <= ex) by (nonlinear_arith)
        requires
            unit > 0,
            0 <= x.magnitude(),
            ex == x.magnitude() / unit,
            fx == x.magnitude() % unit,
    ;
    assert(y.magnitude() == unit * ey + fy && 0 <= fy < unit && 0 <= ey) by (nonlinear_arith)
        requires
            unit > 0,
            0 <= y.magnitude(),
            ey == y.magnitude() / unit,
            fy == y.magnitude() % unit,
    ;
    assert(0 <= x.significand() * px) by (nonlinear_arith)
        requires
            0 <= x.significand(),
            0 < px,
    ;
    if x.magnitude() < y.magnitude() {
        assert(ex <= ey) by (nonlinear_arith)
            requires
                unit * ex + fx < unit * ey + fy,
                0 <= fx < unit,
                0 <= fy < unit,
        ;
        if ex == ey {
            assert(x.significand() * px < y.significand() * py) by (nonlinear_arith)
                requires
                    x.significand() < y.significand(),
                    px == py,
                    0 < px,
            ;
        } else if x.weight() == y.weight() {
            assert(x.significand() * px < y.significand() * py) by (nonlinear_arith)
                requires
                    x.significand() < unit,
                    unit <= y.significand(),
                    px == py,
                    0 < px,
            ;
        } else {
            lemma_pow2_unfold(x.weight() + 1);
            if x.weight() + 1 < y.weight() {
                lemma_pow2_strictly_increases(x.weight() + 1, y.weight());
            }
            assert(x.significand() * px < y.significand() * py) by (nonlinear_arith)
                requires
                    0 <= x.significand() < 2 * unit,
                    unit <= y.significand(),
                    2 * px <= py,
                    0 < px,
                    0 < unit,
            ;
        }
    }
}

/// The constants are the numbers they are named after: zero, one and one
/// hundred.
pub proof fn lemma_constants_are_their_numbers()
    ensures
        zero().encodes_count(0),
        one().encodes_count(1),
        hundred().encodes_count(100),
{
    lemma2_to64();
    lemma2_to64_rest();
    let unit = EXPONENT_UNIT as int;
    assert(zero().scaled() == 0) by (nonlinear_arith)
        requires
            zero().significand() == 0,
            zero().scaled() == zero().significand() * pow2(zero().weight()),
    ;
    lemma_pow2_adds(52, 1023);
    assert(hundred().biased_exponent() == 1029 && hundred().magnitude() % unit
        == 0x9_0000_0000_0000);
    lemma_pow2_adds(48, 1029);
    lemma_pow2_adds(2, 1075);
    assert(hundred().scaled() == 100 * pow2(1075)) by (nonlinear_arith)
        requires
            hundred().scaled() == (25 * pow2(48)) * pow2(1029),
            pow2(1077) == pow2(48) * pow2(1029),
            pow2(1077) == 4 * pow2(1075),
    ;
}

/// A count has one encoding: two values that both encode `n` are the same
/// value, bit for bit.
pub proof fn lemma_count_has_one_encoding(x: Binary64, y: Binary64, n: nat)
    requires
        x.encodes_count(n),
        y.encodes_count(n),
    ensures
        x == y,
{
    lemma_magnitude_orders_the_numbers(x, y);
    lemma_magnitude_orders_the_numbers(y, x);
}

} // verus!
