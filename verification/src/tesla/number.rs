//! Double precision numbers, held as their IEEE 754 bit patterns.
//!
//! A number is a `u64` throughout, so that equality, order and hashing are
//! those of integers, every contract speaks of integers, and a NaN is a value
//! like any other. Comparisons, negation and the choice of a minimum or
//! maximum are decided on the bit pattern. Rounded arithmetic, the
//! conversion of integers and the decimal text are computed on the bit
//! patterns by `rustc_apfloat`, in software: the arithmetic is that of IEEE
//! 754, rounded to nearest with ties to even. The decimal text has digits
//! enough to read back as the same number; it is written as that crate
//! writes it, with an exponent where the number is large or small, which is
//! not letter for letter what the standard library would write.

use rustc_apfloat::ieee::Double;
use rustc_apfloat::Float;
use vstd::prelude::*;

verus! {

/// The bit that holds the sign.
pub const SIGN_BIT: u64 = 0x8000_0000_0000_0000;

/// The bit pattern of positive infinity: every pattern whose magnitude is larger is a NaN.
pub const INFINITY_BITS: u64 = 0x7ff0_0000_0000_0000;

/// The one NaN pattern that a `Number` ever holds.
pub const NAN_BITS: u64 = 0x7ff8_0000_0000_0000;

/// The pattern with its sign bit cleared.
pub open spec fn magnitude(bits: u64) -> u64 {
    if bits >= SIGN_BIT {
        (bits - SIGN_BIT) as u64
    } else {
        bits
    }
}

/// Whether the pattern encodes a NaN.
pub open spec fn is_nan(bits: u64) -> bool {
    magnitude(bits) > INFINITY_BITS
}

/// The pattern itself, or `NAN_BITS` in place of any NaN.
pub open spec fn canonical(bits: u64) -> u64 {
    if is_nan(bits) {
        NAN_BITS
    } else {
        bits
    }
}

/// The position of a pattern that is no NaN on the number line: patterns with
/// the sign bit set mirror those without, and both zeros share position 0.
pub open spec fn rank(bits: u64) -> int {
    if bits >= SIGN_BIT {
        -(magnitude(bits) as int)
    } else {
        bits as int
    }
}

/// `a < b` as IEEE 754 defines it: false whenever a NaN is involved.
pub open spec fn less(a: u64, b: u64) -> bool {
    !is_nan(a) && !is_nan(b) && rank(a) < rank(b)
}

/// `a == b` as IEEE 754 defines it: a NaN equals nothing, the two zeros are equal.
pub open spec fn same_number(a: u64, b: u64) -> bool {
    !is_nan(a) && !is_nan(b) && rank(a) == rank(b)
}

/// The pattern with its sign bit flipped.
pub open spec fn negated(bits: u64) -> u64 {
    if bits >= SIGN_BIT {
        (bits - SIGN_BIT) as u64
    } else {
        (bits + SIGN_BIT) as u64
    }
}

/// The smaller of two numbers, where a NaN gives way to the other operand.
pub open spec fn smaller(a: u64, b: u64) -> u64 {
    if is_nan(a) {
        b
    } else if is_nan(b) {
        a
    } else if less(b, a) {
        b
    } else {
        a
    }
}

/// The larger of two numbers, where a NaN gives way to the other operand.
pub open spec fn larger(a: u64, b: u64) -> u64 {
    if is_nan(a) {
        b
    } else if is_nan(b) {
        a
    } else if less(a, b) {
        b
    } else {
        a
    }
}

/// The sum of two patterns, rounded to nearest with ties to even.
pub uninterp spec fn ieee_sum(a: u64, b: u64) -> u64;

/// The difference of two patterns, rounded to nearest with ties to even.
pub uninterp spec fn ieee_difference(a: u64, b: u64) -> u64;

/// The product of two patterns, rounded to nearest with ties to even.
pub uninterp spec fn ieee_product(a: u64, b: u64) -> u64;

/// The quotient of two patterns, rounded to nearest with ties to even.
pub uninterp spec fn ieee_quotient(a: u64, b: u64) -> u64;

/// The pattern nearest to an integer, ties to even.
pub uninterp spec fn ieee_from_integer(value: i64) -> u64;

/// The decimal text of a pattern.
pub uninterp spec fn ieee_decimal(bits: u64) -> Seq<char>;

/// `rustc_apfloat`'s `Add` on `ieee::Double`, on bit patterns: the result is
/// the pattern that `ieee_sum` names.
#[verifier::external_body]
fn soft_add(a: u64, b: u64) -> (sum: u64)
    ensures
        sum == ieee_sum(a, b),
{
    (Double::from_bits(a as u128) + Double::from_bits(b as u128)).value.to_bits() as u64
}

/// `rustc_apfloat`'s `Sub` on `ieee::Double`, on bit patterns: the result is
/// the pattern that `ieee_difference` names.
#[verifier::external_body]
fn soft_sub(a: u64, b: u64) -> (difference: u64)
    ensures
        difference == ieee_difference(a, b),
{
    (Double::from_bits(a as u128) - Double::from_bits(b as u128)).value.to_bits() as u64
}

/// `rustc_apfloat`'s `Mul` on `ieee::Double`, on bit patterns: the result is
/// the pattern that `ieee_product` names.
#[verifier::external_body]
fn soft_mul(a: u64, b: u64) -> (product: u64)
    ensures
        product == ieee_product(a, b),
{
    (Double::from_bits(a as u128) * Double::from_bits(b as u128)).value.to_bits() as u64
}

/// `rustc_apfloat`'s `Div` on `ieee::Double`, on bit patterns: the result is
/// the pattern that `ieee_quotient` names.
#[verifier::external_body]
fn soft_div(a: u64, b: u64) -> (quotient: u64)
    ensures
        quotient == ieee_quotient(a, b),
{
    (Double::from_bits(a as u128) / Double::from_bits(b as u128)).value.to_bits() as u64
}

/// `rustc_apfloat`'s `Float::from_i128` for `ieee::Double`: the result is the
/// pattern that `ieee_from_integer` names.
#[verifier::external_body]
fn soft_from_integer(value: i64) -> (bits: u64)
    ensures
        bits == ieee_from_integer(value),
{
    Double::from_i128(value as i128).value.to_bits() as u64
}

/// `rustc_apfloat`'s `Display` for `ieee::Double`: the result is the text that
/// `ieee_decimal` names.
#[verifier::external_body]
fn soft_decimal(bits: u64) -> (text: String)
    ensures
        text@ == ieee_decimal(bits),
{
    format!("{}", Double::from_bits(bits as u128))
}

/// A double precision number. No two values hold different NaN patterns, so
/// equal numbers are equal values and a NaN equals itself.
#[derive(Clone, Copy, Debug, PartialEq, Eq, Hash, Structural)]
pub struct Number {
    bits: u64,
}

impl View for Number {
    type V = u64;

    closed spec fn view(&self) -> u64 {
        self.bits
    }
}

impl DeepView for Number {
    type V = u64;

    open spec fn deep_view(&self) -> u64 {
        self@
    }
}

impl Number {
    /// The number with the given bit pattern; every NaN becomes the one NaN.
    pub fn from_bits(bits: u64) -> (number: Number)
        ensures
            number@ == canonical(bits),
    {
        if Self::magnitude_of(bits) > INFINITY_BITS {
            Number { bits: NAN_BITS }
        } else {
            Number { bits }
        }
    }

    /// The bit pattern of the number.
    pub fn to_bits(&self) -> (bits: u64)
        ensures
            bits == self@,
    {
        self.bits
    }

    fn magnitude_of(bits: u64) -> (m: u64)
        ensures
            m == magnitude(bits),
    {
        if bits >= SIGN_BIT {
            bits - SIGN_BIT
        } else {
            bits
        }
    }

    /// Whether the number is a NaN.
    pub fn is_nan(&self) -> (nan: bool)
        ensures
            nan == is_nan(self@),
    {
        Self::magnitude_of(self.bits) > INFINITY_BITS
    }

    /// `self < other`; false when either is a NaN.
    pub fn less_than(&self, other: &Number) -> (lt: bool)
        ensures
            lt == less(self@, other@),
    {
        if self.is_nan() || other.is_nan() {
            false
        } else {
            let a_negative = self.bits >= SIGN_BIT;
            let b_negative = other.bits >= SIGN_BIT;
            let a = Self::magnitude_of(self.bits);
            let b = Self::magnitude_of(other.bits);
            if a_negative && b_negative {
                a > b
            } else if a_negative {
                a != 0 || b != 0
            } else if b_negative {
                false
            } else {
                a < b
            }
        }
    }

    /// `self == other` as numbers; false when either is a NaN.
    pub fn same_number(&self, other: &Number) -> (same: bool)
        ensures
            same == same_number(self@, other@),
    {
        if self.is_nan() || other.is_nan() {
            false
        } else {
            let a = Self::magnitude_of(self.bits);
            let b = Self::magnitude_of(other.bits);
            (a == 0 && b == 0) || self.bits == other.bits
        }
    }

    /// The number with its sign flipped.
    pub fn negate(&self) -> (number: Number)
        ensures
            number@ == canonical(negated(self@)),
    {
        if self.bits >= SIGN_BIT {
            Number::from_bits(self.bits - SIGN_BIT)
        } else {
            Number::from_bits(self.bits + SIGN_BIT)
        }
    }

    /// The smaller of the two; a NaN gives way to the other operand.
    pub fn min(&self, other: &Number) -> (number: Number)
        ensures
            number@ == smaller(self@, other@),
    {
        if self.is_nan() {
            *other
        } else if other.is_nan() {
            *self
        } else if other.less_than(self) {
            *other
        } else {
            *self
        }
    }

    /// The larger of the two; a NaN gives way to the other operand.
    pub fn max(&self, other: &Number) -> (number: Number)
        ensures
            number@ == larger(self@, other@),
    {
        if self.is_nan() {
            *other
        } else if other.is_nan() {
            *self
        } else if self.less_than(other) {
            *other
        } else {
            *self
        }
    }

    /// The rounded sum.
    pub fn plus(&self, other: &Number) -> (number: Number)
        ensures
            number@ == canonical(ieee_sum(self@, other@)),
    {
        Number::from_bits(soft_add(self.bits, other.bits))
    }

    /// The rounded difference.
    pub fn minus(&self, other: &Number) -> (number: Number)
        ensures
            number@ == canonical(ieee_difference(self@, other@)),
    {
        Number::from_bits(soft_sub(self.bits, other.bits))
    }

    /// The rounded product.
    pub fn times(&self, other: &Number) -> (number: Number)
        ensures
            number@ == canonical(ieee_product(self@, other@)),
    {
        Number::from_bits(soft_mul(self.bits, other.bits))
    }

    /// The rounded quotient.
    pub fn divided_by(&self, other: &Number) -> (number: Number)
        ensures
            number@ == canonical(ieee_quotient(self@, other@)),
    {
        Number::from_bits(soft_div(self.bits, other.bits))
    }

    /// The number nearest to an integer.
    pub fn from_integer(value: i64) -> (number: Number)
        ensures
            number@ == canonical(ieee_from_integer(value)),
    {
        Number::from_bits(soft_from_integer(value))
    }

    /// The number written in decimal.
    pub fn to_decimal(&self) -> (text: String)
        ensures
            text@ == ieee_decimal(self@),
    {
        soft_decimal(self.bits)
    }
}

/// Two numbers made from NaN patterns are the same value, whatever the patterns.
pub proof fn lemma_nan_equals_itself(a: u64, b: u64)
    requires
        is_nan(a),
        is_nan(b),
    ensures
        canonical(a) == canonical(b),
        is_nan(canonical(a)),
{
}

} // verus!
